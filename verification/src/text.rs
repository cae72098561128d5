//! Character-level text primitives: whitespace, trimming, searching,
//! splitting, joining, decimal numbers. Every string is handled through its
//! view, a `Seq<char>`.

use vstd::prelude::*;

verus! {

// ---------------------------------------------------------------------
// Conversions between `str`/`String` and character vectors.
// ---------------------------------------------------------------------

/// `String::push`: the character is added at the end.
pub assume_specification[ String::push ](string: &mut String, ch: char)
    ensures
        final(string)@ == old(string)@.push(ch),
;

/// The characters of `s`, in order.
pub fn chars_of(s: &str) -> (v: Vec<char>)
    ensures
        v@ == s@,
{
    broadcast use vstd::string::axiom_spec_iter;
    let mut v: Vec<char> = Vec::new();
    for c in it: s.chars()
        invariant
            it.seq() == s@,
            v@ == it.seq().take(it.index() as int),
    {
        assert(it.seq().take(it.index() + 1) =~= it.seq().take(it.index() as int).push(c));
        v.push(c);
    }
    assert(s@.take(s@.len() as int) =~= s@);
    v
}

/// The string made of the characters of `v`.
pub fn string_of(v: &Vec<char>) -> (s: String)
    ensures
        s@ == v@,
{
    let mut out = String::new();
    let mut i: usize = 0;
    while i < v.len()
        invariant
            i <= v.len(),
            out@ == v@.take(i as int),
        decreases v.len() - i,
    {
        out.push(v[i]);
        assert(v@.take(i + 1) =~= v@.take(i as int).push(v@[i as int]));
        i = i + 1;
    }
    assert(v@.take(v.len() as int) =~= v@);
    out
}

/// The texts of a list of strings.
pub open spec fn string_views(v: Seq<String>) -> Seq<Seq<char>> {
    v.map_values(|s: String| s@)
}

/// Whether one of `v` reads `s`.
pub fn has_string(v: &Vec<String>, s: &str) -> (b: bool)
    ensures
        b == string_views(v@).contains(s@),
{
    let mut i: usize = 0;
    while i < v.len()
        invariant
            i <= v.len(),
            forall|j: int| 0 <= j < i ==> string_views(v@)[j] != s@,
        decreases v.len() - i,
    {
        if str_eq(v[i].as_str(), s) {
            assert(string_views(v@)[i as int] == s@);
            return true;
        }
        i = i + 1;
    }
    false
}

/// Whether `v` holds a text equal to `t`.
pub fn has_chars(v: &Vec<Vec<char>>, t: &Vec<char>) -> (b: bool)
    ensures
        b == v@.map_values(|p: Vec<char>| p@).contains(t@),
{
    let ghost vv = v@.map_values(|p: Vec<char>| p@);
    let mut i: usize = 0;
    while i < v.len()
        invariant
            i <= v.len(),
            vv == v@.map_values(|p: Vec<char>| p@),
            forall|j: int| 0 <= j < i ==> vv[j] != t@,
        decreases v.len() - i,
    {
        if chars_eq(&v[i], t) {
            assert(vv[i as int] == t@);
            return true;
        }
        i = i + 1;
    }
    false
}

/// The first index of a label.
pub open spec fn label_index(labels: Seq<Seq<char>>, label: Seq<char>) -> Option<int>
    decreases labels.len(),
{
    if labels.len() == 0 {
        None
    } else if labels[0] == label {
        Some(0)
    } else {
        match label_index(labels.drop_first(), label) {
            Some(i) => Some(i + 1),
            None => None,
        }
    }
}

/// `label_index` finds an index holding the label.
pub proof fn lemma_label_index_in_range(s: Seq<Seq<char>>, x: Seq<char>)
    ensures
        label_index(s, x) matches Some(i) ==> 0 <= i < s.len() && s[i] == x,
    decreases s.len(),
{
    if s.len() > 0 && s[0] != x {
        lemma_label_index_in_range(s.drop_first(), x);
    }
}

/// A label that occurs has a first index, at or before any occurrence.
pub proof fn lemma_label_index_found(s: Seq<Seq<char>>, x: Seq<char>, j: int)
    requires
        0 <= j < s.len(),
        s[j] == x,
    ensures
        label_index(s, x) matches Some(i) && 0 <= i <= j && s[i] == x,
    decreases s.len(),
{
    if s[0] != x {
        assert(s.drop_first()[j - 1] == x);
        lemma_label_index_found(s.drop_first(), x, j - 1);
    }
}

/// Where `label` first occurs among `labels`.
pub(crate) fn label_position(labels: &Vec<String>, label: &str) -> (r: Option<usize>)
    ensures
        match r {
            Some(i) => label_index(string_views(labels@), label@) == Some(i as int),
            None => label_index(string_views(labels@), label@) is None,
        },
{
    let ghost all = string_views(labels@);
    let mut i: usize = 0;
    assert(all.skip(0) =~= all);
    while i < labels.len()
        invariant
            i <= labels.len(),
            all == string_views(labels@),
            label_index(all, label@) == match label_index(all.skip(i as int), label@) {
                Some(k) => Some(k + i),
                None => None::<int>,
            },
        decreases labels.len() - i,
    {
        assert(all.skip(i as int).drop_first() =~= all.skip(i + 1));
        assert(all.skip(i as int)[0] == labels@[i as int]@);
        if str_eq(labels[i].as_str(), label) {
            return Some(i);
        }
        i = i + 1;
    }
    assert(all.skip(labels.len() as int) =~= Seq::<Seq<char>>::empty());
    None
}

/// A copy of a list of strings.
pub fn copy_strings(v: &Vec<String>) -> (r: Vec<String>)
    ensures
        string_views(r@) == string_views(v@),
{
    let mut out: Vec<String> = Vec::new();
    let mut i: usize = 0;
    while i < v.len()
        invariant
            i <= v.len(),
            string_views(out@) == string_views(v@).take(i as int),
        decreases v.len() - i,
    {
        let ghost before = string_views(out@);
        let s = v[i].clone();
        out.push(s);
        assert(string_views(out@) =~= before.push(s@));
        assert(string_views(v@).take(i + 1) =~= string_views(v@).take(i as int).push(v@[i as int]@));
        i = i + 1;
    }
    assert(string_views(v@).take(v.len() as int) =~= string_views(v@));
    out
}

/// The owned copy of a literal or borrowed string.
pub fn owned(s: &str) -> (r: String)
    ensures
        r@ == s@,
{
    s.to_owned()
}

// ---------------------------------------------------------------------
// Whitespace.
// ---------------------------------------------------------------------

/// Unicode `White_Space`, the property `char::is_whitespace` tests.
pub open spec fn is_white(c: char) -> bool {
    ||| c == ' '
    ||| ('\u{9}' <= c && c <= '\u{d}')
    ||| c == '\u{85}'
    ||| c == '\u{a0}'
    ||| c == '\u{1680}'
    ||| ('\u{2000}' <= c && c <= '\u{200a}')
    ||| c == '\u{2028}'
    ||| c == '\u{2029}'
    ||| c == '\u{202f}'
    ||| c == '\u{205f}'
    ||| c == '\u{3000}'
}

pub fn is_whitespace(c: char) -> (b: bool)
    ensures
        b == is_white(c),
{
    c == ' ' || ('\u{9}' <= c && c <= '\u{d}') || c == '\u{85}' || c == '\u{a0}' || c
        == '\u{1680}' || ('\u{2000}' <= c && c <= '\u{200a}') || c == '\u{2028}' || c
        == '\u{2029}' || c == '\u{202f}' || c == '\u{205f}' || c == '\u{3000}'
}

/// Number of leading whitespace characters.
pub open spec fn lead_ws(s: Seq<char>) -> nat
    decreases s.len(),
{
    if s.len() > 0 && is_white(s[0]) {
        1 + lead_ws(s.drop_first())
    } else {
        0
    }
}

/// Number of trailing whitespace characters.
pub open spec fn trail_ws(s: Seq<char>) -> nat
    decreases s.len(),
{
    if s.len() > 0 && is_white(s.last()) {
        1 + trail_ws(s.drop_last())
    } else {
        0
    }
}

pub open spec fn trim_start(s: Seq<char>) -> Seq<char> {
    s.skip(lead_ws(s) as int)
}

pub open spec fn trim_end(s: Seq<char>) -> Seq<char> {
    s.take(s.len() - trail_ws(s))
}

/// `str::trim`: both ends stripped of whitespace.
pub open spec fn trim(s: Seq<char>) -> Seq<char> {
    trim_end(trim_start(s))
}

pub proof fn lemma_lead_ws(s: Seq<char>)
    ensures
        lead_ws(s) <= s.len(),
        forall|k: int| 0 <= k < lead_ws(s) ==> is_white(#[trigger] s[k]),
        lead_ws(s) < s.len() ==> !is_white(s[lead_ws(s) as int]),
    decreases s.len(),
{
    if s.len() > 0 && is_white(s[0]) {
        lemma_lead_ws(s.drop_first());
        assert forall|k: int| 0 <= k < lead_ws(s) implies is_white(#[trigger] s[k]) by {
            if k > 0 {
                assert(s[k] == s.drop_first()[k - 1]);
            }
        }
    }
}

pub proof fn lemma_trail_ws(s: Seq<char>)
    ensures
        trail_ws(s) <= s.len(),
        forall|k: int| s.len() - trail_ws(s) <= k < s.len() ==> is_white(#[trigger] s[k]),
        trail_ws(s) < s.len() ==> !is_white(s[s.len() - trail_ws(s) - 1]),
    decreases s.len(),
{
    if s.len() > 0 && is_white(s.last()) {
        lemma_trail_ws(s.drop_last());
        assert forall|k: int| s.len() - trail_ws(s) <= k < s.len() implies is_white(
            #[trigger] s[k],
        ) by {
            if k < s.len() - 1 {
                assert(s[k] == s.drop_last()[k]);
            }
        }
    }
}

/// Any index that is the first non-whitespace one equals `lead_ws`.
pub proof fn lemma_lead_ws_unique(s: Seq<char>, i: int)
    requires
        0 <= i <= s.len(),
        forall|k: int| 0 <= k < i ==> is_white(#[trigger] s[k]),
        i < s.len() ==> !is_white(s[i]),
    ensures
        lead_ws(s) == i,
{
    lemma_lead_ws(s);
    if lead_ws(s) < i {
        assert(is_white(s[lead_ws(s) as int]));
    }
    if lead_ws(s) > i {
        assert(is_white(s[i]));
    }
}

pub proof fn lemma_trail_ws_unique(s: Seq<char>, j: int)
    requires
        0 <= j <= s.len(),
        forall|k: int| j <= k < s.len() ==> is_white(#[trigger] s[k]),
        j > 0 ==> !is_white(s[j - 1]),
    ensures
        trail_ws(s) == s.len() - j,
{
    lemma_trail_ws(s);
    let t = s.len() - trail_ws(s);
    if t > j {
        assert(is_white(s[t - 1]));
    }
    if t < j {
        assert(is_white(s[j - 1]));
    }
}

/// Index of the first non-whitespace character of `v` (or its length).
fn first_non_white(v: &Vec<char>) -> (i: usize)
    ensures
        i == lead_ws(v@),
        i <= v.len(),
{
    let mut i: usize = 0;
    while i < v.len() && is_whitespace(v[i])
        invariant
            i <= v.len(),
            forall|k: int| 0 <= k < i ==> is_white(#[trigger] v@[k]),
        decreases v.len() - i,
    {
        i = i + 1;
    }
    proof {
        lemma_lead_ws_unique(v@, i as int);
    }
    i
}

/// One past the last non-whitespace character of `v` (or 0).
fn last_non_white_end(v: &Vec<char>) -> (j: usize)
    ensures
        j == v@.len() - trail_ws(v@),
{
    let mut j: usize = v.len();
    while j > 0 && is_whitespace(v[j - 1])
        invariant
            j <= v.len(),
            forall|k: int| j <= k < v.len() ==> is_white(#[trigger] v@[k]),
        decreases j,
    {
        j = j - 1;
    }
    proof {
        lemma_trail_ws_unique(v@, j as int);
    }
    j
}

/// The characters of `v` in `[from, to)`.
pub fn slice_chars(v: &Vec<char>, from: usize, to: usize) -> (r: Vec<char>)
    requires
        from <= to <= v.len(),
    ensures
        r@ == v@.subrange(from as int, to as int),
{
    let mut r: Vec<char> = Vec::new();
    let mut k: usize = from;
    while k < to
        invariant
            from <= k <= to <= v.len(),
            r@ == v@.subrange(from as int, k as int),
        decreases to - k,
    {
        r.push(v[k]);
        k = k + 1;
        assert(r@ =~= v@.subrange(from as int, k as int));
    }
    r
}

/// `str::trim` on a character vector.
pub fn trim_chars(v: &Vec<char>) -> (r: Vec<char>)
    ensures
        r@ == trim(v@),
{
    let i = first_non_white(v);
    let head = slice_chars(v, i, v.len());
    assert(head@ =~= trim_start(v@));
    let j = last_non_white_end(&head);
    let r = slice_chars(&head, 0, j);
    assert(r@ =~= trim(v@));
    r
}

/// `str::trim`.
pub fn trim_str(s: &str) -> (r: String)
    ensures
        r@ == trim(s@),
{
    let v = chars_of(s);
    let t = trim_chars(&v);
    string_of(&t)
}

// ---------------------------------------------------------------------
// Searching.
// ---------------------------------------------------------------------

/// `t` occurs in `s` starting at `i`.
pub open spec fn occurs_at(s: Seq<char>, t: Seq<char>, i: int) -> bool {
    0 <= i && i + t.len() <= s.len() && s.subrange(i, i + t.len()) == t
}

/// `str::contains` for a string pattern.
pub open spec fn contains_seq(s: Seq<char>, t: Seq<char>) -> bool {
    exists|i: int| occurs_at(s, t, i)
}

/// `str::starts_with` for a string pattern.
pub open spec fn starts_with(s: Seq<char>, t: Seq<char>) -> bool {
    occurs_at(s, t, 0)
}

pub fn occurs_at_exec(s: &Vec<char>, t: &Vec<char>, i: usize) -> (b: bool)
    ensures
        b == occurs_at(s@, t@, i as int),
{
    if i > s.len() || t.len() > s.len() - i {
        return false;
    }
    let mut k: usize = 0;
    while k < t.len()
        invariant
            i + t.len() <= s.len(),
            k <= t.len(),
            forall|m: int| 0 <= m < k ==> s@[i + m] == t@[m],
        decreases t.len() - k,
    {
        if s[i + k] != t[k] {
            assert(s@.subrange(i as int, i + t.len())[k as int] != t@[k as int]);
            return false;
        }
        k = k + 1;
    }
    assert(s@.subrange(i as int, i + t.len()) =~= t@);
    true
}

pub fn contains_chars(s: &Vec<char>, t: &Vec<char>) -> (b: bool)
    ensures
        b == contains_seq(s@, t@),
{
    let mut i: usize = 0;
    loop
        invariant
            i <= s.len(),
            forall|m: int| 0 <= m < i ==> !occurs_at(s@, t@, m),
        decreases s.len() - i,
    {
        if occurs_at_exec(s, t, i) {
            return true;
        }
        if i == s.len() {
            assert forall|m: int| !occurs_at(s@, t@, m) by {
                if 0 <= m < i {
                }
            }
            return false;
        }
        i = i + 1;
    }
}

pub fn starts_with_chars(s: &Vec<char>, t: &Vec<char>) -> (b: bool)
    ensures
        b == starts_with(s@, t@),
{
    occurs_at_exec(s, t, 0)
}

/// `str::ends_with` for a string pattern.
pub open spec fn ends_with(s: Seq<char>, t: Seq<char>) -> bool {
    occurs_at(s, t, s.len() - t.len())
}

pub fn ends_with_chars(s: &Vec<char>, t: &Vec<char>) -> (b: bool)
    ensures
        b == ends_with(s@, t@),
{
    if t.len() > s.len() {
        return false;
    }
    occurs_at_exec(s, t, s.len() - t.len())
}

/// Character-wise equality of two strings.
pub fn str_eq(a: &str, b: &str) -> (r: bool)
    ensures
        r == (a@ == b@),
{
    let x = chars_of(a);
    let y = chars_of(b);
    let r = chars_eq(&x, &y);
    r
}

pub fn chars_eq(x: &Vec<char>, y: &Vec<char>) -> (r: bool)
    ensures
        r == (x@ == y@),
{
    if x.len() != y.len() {
        return false;
    }
    let mut k: usize = 0;
    while k < x.len()
        invariant
            x.len() == y.len(),
            k <= x.len(),
            forall|m: int| 0 <= m < k ==> x@[m] == y@[m],
        decreases x.len() - k,
    {
        if x[k] != y[k] {
            return false;
        }
        k = k + 1;
    }
    assert(x@ =~= y@);
    true
}

// ---------------------------------------------------------------------
// Building strings.
// ---------------------------------------------------------------------

/// Appends the characters of `t` to `v`.
pub fn append_chars(v: &mut Vec<char>, t: &Vec<char>)
    ensures
        final(v)@ == old(v)@ + t@,
{
    let mut k: usize = 0;
    while k < t.len()
        invariant
            k <= t.len(),
            v@ == old(v)@ + t@.take(k as int),
        decreases t.len() - k,
    {
        v.push(t[k]);
        k = k + 1;
        assert(v@ =~= old(v)@ + t@.take(k as int));
    }
    assert(t@.take(t.len() as int) =~= t@);
}

/// Appends the characters of `s` to `v`.
pub fn append_str(v: &mut Vec<char>, s: &str)
    ensures
        final(v)@ == old(v)@ + s@,
{
    let t = chars_of(s);
    append_chars(v, &t);
}

// ---------------------------------------------------------------------
// Leading runs of one character.
// ---------------------------------------------------------------------

/// Number of leading copies of `c`.
pub open spec fn lead_char(s: Seq<char>, c: char) -> nat
    decreases s.len(),
{
    if s.len() > 0 && s[0] == c {
        1 + lead_char(s.drop_first(), c)
    } else {
        0
    }
}

/// `str::trim_start_matches(c)`: every leading `c` removed.
pub open spec fn strip_leading(s: Seq<char>, c: char) -> Seq<char> {
    s.skip(lead_char(s, c) as int)
}

pub proof fn lemma_lead_char_unique(s: Seq<char>, c: char, i: int)
    requires
        0 <= i <= s.len(),
        forall|k: int| 0 <= k < i ==> #[trigger] s[k] == c,
        i < s.len() ==> s[i] != c,
    ensures
        lead_char(s, c) == i,
    decreases s.len(),
{
    if i > 0 {
        assert(s[0] == c);
        let t = s.drop_first();
        assert forall|k: int| 0 <= k < i - 1 implies #[trigger] t[k] == c by {
            assert(t[k] == s[k + 1]);
        }
        if i - 1 < t.len() {
            assert(t[i - 1] == s[i]);
        }
        lemma_lead_char_unique(t, c, i - 1);
    } else if s.len() > 0 {
        assert(s[0] != c);
    }
}

pub fn strip_leading_chars(v: &Vec<char>, c: char) -> (r: Vec<char>)
    ensures
        r@ == strip_leading(v@, c),
{
    let mut i: usize = 0;
    while i < v.len() && v[i] == c
        invariant
            i <= v.len(),
            forall|k: int| 0 <= k < i ==> #[trigger] v@[k] == c,
        decreases v.len() - i,
    {
        i = i + 1;
    }
    proof {
        lemma_lead_char_unique(v@, c, i as int);
    }
    slice_chars(v, i, v.len())
}

/// `str::trim_start_matches(c)` into an owned string.
pub fn strip_leading_str(s: &str, c: char) -> (r: String)
    ensures
        r@ == strip_leading(s@, c),
{
    let v = chars_of(s);
    let t = strip_leading_chars(&v, c);
    string_of(&t)
}

// ---------------------------------------------------------------------
// Splitting at a character.
// ---------------------------------------------------------------------

/// Number of characters before the first `c` (the whole length when `c`
/// does not occur).
pub open spec fn before_char(s: Seq<char>, c: char) -> nat
    decreases s.len(),
{
    if s.len() > 0 && s[0] != c {
        1 + before_char(s.drop_first(), c)
    } else {
        0
    }
}

pub proof fn lemma_before_char(s: Seq<char>, c: char)
    ensures
        before_char(s, c) <= s.len(),
        forall|k: int| 0 <= k < before_char(s, c) ==> #[trigger] s[k] != c,
        before_char(s, c) < s.len() ==> s[before_char(s, c) as int] == c,
    decreases s.len(),
{
    if s.len() > 0 && s[0] != c {
        lemma_before_char(s.drop_first(), c);
        assert forall|k: int| 0 <= k < before_char(s, c) implies #[trigger] s[k] != c by {
            if k > 0 {
                assert(s[k] == s.drop_first()[k - 1]);
            }
        }
    }
}

pub proof fn lemma_before_char_unique(s: Seq<char>, c: char, i: int)
    requires
        0 <= i <= s.len(),
        forall|k: int| 0 <= k < i ==> #[trigger] s[k] != c,
        i < s.len() ==> s[i] == c,
    ensures
        before_char(s, c) == i,
{
    lemma_before_char(s, c);
    let b = before_char(s, c) as int;
    if b < i {
        assert(s[b] != c);
    }
    if b > i {
        assert(s[i] != c);
    }
}

/// Index of the last `c` in `s`, or -1.
pub open spec fn last_index(s: Seq<char>, c: char) -> int
    decreases s.len(),
{
    if s.len() == 0 {
        -1
    } else if s.last() == c {
        s.len() - 1
    } else {
        last_index(s.drop_last(), c)
    }
}

pub proof fn lemma_last_index(s: Seq<char>, c: char)
    ensures
        -1 <= last_index(s, c) < s.len(),
        last_index(s, c) >= 0 ==> s[last_index(s, c)] == c,
        forall|j: int| last_index(s, c) < j < s.len() ==> s[j] != c,
    decreases s.len(),
{
    if s.len() > 0 && s.last() != c {
        lemma_last_index(s.drop_last(), c);
        assert forall|j: int| last_index(s, c) < j < s.len() implies s[j] != c by {
            if j < s.len() - 1 {
                assert(s[j] == s.drop_last()[j]);
            }
        }
    }
}

pub fn last_index_of(v: &Vec<char>, c: char) -> (r: Option<usize>)
    ensures
        match r {
            Some(i) => i as int == last_index(v@, c),
            None => last_index(v@, c) == -1,
        },
{
    let mut k: usize = v.len();
    assert(v@.take(k as int) =~= v@);
    while k > 0
        invariant
            k <= v.len(),
            last_index(v@, c) == last_index(v@.take(k as int), c),
        decreases k,
    {
        assert(v@.take(k as int).drop_last() =~= v@.take(k - 1));
        assert(v@.take(k as int).last() == v@[k - 1]);
        if v[k - 1] == c {
            return Some(k - 1);
        }
        k = k - 1;
    }
    assert(v@.take(0) =~= Seq::<char>::empty());
    None
}

/// Position of the first `c` in `v`, or its length.
pub fn index_of_char(v: &Vec<char>, c: char) -> (i: usize)
    ensures
        i == before_char(v@, c),
        i <= v.len(),
{
    let mut i: usize = 0;
    while i < v.len() && v[i] != c
        invariant
            i <= v.len(),
            forall|k: int| 0 <= k < i ==> #[trigger] v@[k] != c,
        decreases v.len() - i,
    {
        i = i + 1;
    }
    proof {
        lemma_before_char_unique(v@, c, i as int);
    }
    i
}

/// The first `'.'`-separated part of a dotted path
/// (`split('.').next()`), the top-level area of a section.
pub open spec fn spec_top_level(s: Seq<char>) -> Seq<char> {
    s.take(before_char(s, '.') as int)
}

pub fn top_level_chars(v: &Vec<char>) -> (r: Vec<char>)
    ensures
        r@ == spec_top_level(v@),
{
    let i = index_of_char(v, '.');
    slice_chars(v, 0, i)
}

/// The top-level area of a dotted section name.
pub fn top_level(s: &str) -> (r: String)
    ensures
        r@ == spec_top_level(s@),
{
    let v = chars_of(s);
    let t = top_level_chars(&v);
    string_of(&t)
}

// ---------------------------------------------------------------------
// Letter case.
// ---------------------------------------------------------------------

/// `char::to_ascii_uppercase`.
pub open spec fn ascii_upper(c: char) -> char {
    if 'a' <= c && c <= 'z' {
        ((c as u32) - 32) as char
    } else {
        c
    }
}

pub fn to_ascii_upper(c: char) -> (r: char)
    ensures
        r == ascii_upper(c),
{
    if 'a' <= c && c <= 'z' {
        let code: u8 = ((c as u32) - 32) as u8;
        code as char
    } else {
        c
    }
}

/// `char::to_ascii_lowercase`.
pub open spec fn ascii_lower(c: char) -> char {
    if 'A' <= c && c <= 'Z' {
        ((c as u32) + 32) as char
    } else {
        c
    }
}

pub fn to_ascii_lower(c: char) -> (r: char)
    ensures
        r == ascii_lower(c),
{
    if 'A' <= c && c <= 'Z' {
        let code: u8 = ((c as u32) + 32) as u8;
        code as char
    } else {
        c
    }
}

/// Every character made ASCII upper case.
pub open spec fn upper(s: Seq<char>) -> Seq<char> {
    s.map_values(|c: char| ascii_upper(c))
}

pub fn upper_ascii(s: &str) -> (r: String)
    ensures
        r@ == upper(s@),
{
    let v = chars_of(s);
    let mut out: Vec<char> = Vec::new();
    let mut k: usize = 0;
    while k < v.len()
        invariant
            k <= v.len(),
            out@ == upper(v@.take(k as int)),
        decreases v.len() - k,
    {
        let c = to_ascii_upper(v[k]);
        out.push(c);
        assert(out@ =~= upper(v@.take(k + 1)));
        k = k + 1;
    }
    assert(v@.take(v.len() as int) =~= v@);
    string_of(&out)
}

/// The first character made ASCII upper case (what `make_ascii_uppercase`
/// does on the first byte when it is a character of its own).
pub open spec fn capitalize(s: Seq<char>) -> Seq<char> {
    if s.len() == 0 {
        s
    } else {
        s.update(0, ascii_upper(s[0]))
    }
}

pub fn capitalize_chars(v: &mut Vec<char>)
    ensures
        final(v)@ == capitalize(old(v)@),
{
    if v.len() > 0 {
        let c = to_ascii_upper(v[0]);
        v.set(0, c);
    }
}

/// Every `from` replaced by `to`.
pub open spec fn replace_char(s: Seq<char>, from: char, to: char) -> Seq<char> {
    s.map_values(|c: char| if c == from { to } else { c })
}

pub fn replace_char_chars(v: &Vec<char>, from: char, to: char) -> (r: Vec<char>)
    ensures
        r@ == replace_char(v@, from, to),
{
    let mut r: Vec<char> = Vec::new();
    let mut k: usize = 0;
    while k < v.len()
        invariant
            k <= v.len(),
            r@ == replace_char(v@.take(k as int), from, to),
        decreases v.len() - k,
    {
        let c = v[k];
        if c == from {
            r.push(to);
        } else {
            r.push(c);
        }
        k = k + 1;
        assert(r@ =~= replace_char(v@.take(k as int), from, to));
    }
    assert(v@.take(v.len() as int) =~= v@);
    r
}

// ---------------------------------------------------------------------
// Decimal numbers.
// ---------------------------------------------------------------------

pub open spec fn digit_char(d: nat) -> char {
    if d == 0 { '0' } else if d == 1 { '1' } else if d == 2 { '2' } else if d == 3 { '3' }
    else if d == 4 { '4' } else if d == 5 { '5' } else if d == 6 { '6' } else if d == 7 { '7' }
    else if d == 8 { '8' } else { '9' }
}

/// The decimal digits of `n`, no leading zeros (`"0"` for zero).
pub open spec fn decimal(n: nat) -> Seq<char>
    decreases n,
{
    if n < 10 {
        seq![digit_char(n)]
    } else {
        decimal(n / 10).push(digit_char(n % 10))
    }
}

/// `i64`'s `Display`: a minus sign before the magnitude's digits.
pub open spec fn signed_decimal(n: int) -> Seq<char> {
    if n < 0 {
        seq!['-'] + decimal((-n) as nat)
    } else {
        decimal(n as nat)
    }
}

fn digit_of(d: u64) -> (c: char)
    requires
        d < 10,
    ensures
        c == digit_char(d as nat),
{
    if d == 0 { '0' } else if d == 1 { '1' } else if d == 2 { '2' } else if d == 3 { '3' }
    else if d == 4 { '4' } else if d == 5 { '5' } else if d == 6 { '6' } else if d == 7 { '7' }
    else if d == 8 { '8' } else { '9' }
}

/// The decimal digits of `n`.
pub fn decimal_chars(n: u64) -> (r: Vec<char>)
    ensures
        r@ == decimal(n as nat),
    decreases n,
{
    if n < 10 {
        let mut r: Vec<char> = Vec::new();
        r.push(digit_of(n));
        assert(r@ =~= seq![digit_char(n as nat)]);
        r
    } else {
        let mut r = decimal_chars(n / 10);
        r.push(digit_of(n % 10));
        r
    }
}

/// `i64`'s `Display`.
pub fn signed_decimal_chars(n: i64) -> (r: Vec<char>)
    ensures
        r@ == signed_decimal(n as int),
{
    if n < 0 {
        let magnitude: u64 = if n == i64::MIN {
            9223372036854775808u64
        } else {
            (-n) as u64
        };
        let mut r: Vec<char> = Vec::new();
        r.push('-');
        let digits = decimal_chars(magnitude);
        append_chars(&mut r, &digits);
        r
    } else {
        decimal_chars(n as u64)
    }
}

/// Value of a run of ASCII digits.
pub open spec fn digits_value(s: Seq<char>) -> nat
    decreases s.len(),
{
    if s.len() == 0 {
        0
    } else {
        digits_value(s.drop_last()) * 10 + ((s.last() as u32) - ('0' as u32)) as nat
    }
}

pub open spec fn all_digits(s: Seq<char>) -> bool {
    forall|i: int| 0 <= i < s.len() ==> '0' <= #[trigger] s[i] && s[i] <= '9'
}

/// `str::parse::<i64>`: an optional sign, then one or more ASCII digits,
/// with the value in range.
pub open spec fn parse_i64(s: Seq<char>) -> Option<int> {
    let negative = s.len() > 0 && s[0] == '-';
    let signed = s.len() > 0 && (s[0] == '-' || s[0] == '+');
    let body = if signed { s.drop_first() } else { s };
    if body.len() == 0 || !all_digits(body) {
        None
    } else if negative {
        if digits_value(body) <= 9223372036854775808 {
            Some(-(digits_value(body) as int))
        } else {
            None
        }
    } else if digits_value(body) <= 9223372036854775807 {
        Some(digits_value(body) as int)
    } else {
        None
    }
}

proof fn lemma_digits_value_grows(s: Seq<char>, k: int)
    requires
        0 <= k <= s.len(),
        all_digits(s),
    ensures
        digits_value(s.take(k)) <= digits_value(s),
    decreases s.len() - k,
{
    if k < s.len() {
        lemma_digits_value_grows(s, k + 1);
        assert(s.take(k + 1).drop_last() =~= s.take(k));
        assert('0' <= s[k]);
    } else {
        assert(s.take(k) =~= s);
    }
}

/// `str::parse::<u64>`: an optional `+`, then one or more ASCII digits,
/// with the value in range.
pub open spec fn parse_u64(s: Seq<char>) -> Option<nat> {
    let body = if s.len() > 0 && s[0] == '+' { s.drop_first() } else { s };
    if body.len() == 0 || !all_digits(body) || digits_value(body) > 18446744073709551615 {
        None
    } else {
        Some(digits_value(body))
    }
}

/// `str::parse::<u64>` on a character vector.
pub fn parse_u64_chars(v: &Vec<char>) -> (r: Option<u64>)
    ensures
        match r {
            Some(n) => parse_u64(v@) == Some(n as nat),
            None => parse_u64(v@) is None,
        },
{
    let start: usize = if v.len() > 0 && v[0] == '+' { 1 } else { 0 };
    let ghost body = if v@.len() > 0 && v@[0] == '+' { v@.drop_first() } else { v@ };
    assert(body =~= v@.skip(start as int));
    if start == v.len() {
        return None;
    }
    let limit: u64 = 18446744073709551615u64;
    let mut acc: u64 = 0;
    let mut k: usize = start;
    while k < v.len()
        invariant
            start <= k <= v.len(),
            body == v@.skip(start as int),
            body == (if v@.len() > 0 && v@[0] == '+' { v@.drop_first() } else { v@ }),
            limit == 18446744073709551615u64,
            all_digits(body.take(k - start)),
            acc as nat == digits_value(body.take(k - start)),
        decreases v.len() - k,
    {
        let c = v[k];
        assert(body[k - start] == c);
        assert(body.take(k - start + 1).drop_last() =~= body.take(k - start));
        if c < '0' || c > '9' {
            assert(!all_digits(body));
            return None;
        }
        let d: u64 = ((c as u32) - ('0' as u32)) as u64;
        if acc > (limit - d) / 10 {
            proof {
                assert(all_digits(body.take(k - start + 1)));
                assert(digits_value(body.take(k - start + 1)) == acc * 10 + d) by (nonlinear_arith)
                    requires
                        digits_value(body.take(k - start + 1)) == digits_value(body.take(k - start)) * 10 + d,
                        acc as nat == digits_value(body.take(k - start));
                assert(acc * 10 + d > limit) by (nonlinear_arith)
                    requires
                        acc > (limit - d) / 10,
                        d <= 9,
                        d <= limit;
                if all_digits(body) {
                    lemma_digits_value_grows(body, k - start + 1);
                }
            }
            return None;
        }
        proof {
            assert(acc * 10 + d <= limit) by (nonlinear_arith)
                requires
                    acc <= (limit - d) / 10,
                    d <= 9,
                    d <= limit;
        }
        acc = acc * 10 + d;
        k = k + 1;
        assert(all_digits(body.take(k - start)));
    }
    assert(body.take(v.len() - start) =~= body);
    Some(acc)
}

/// `str::parse::<i64>` on a character vector.
pub fn parse_i64_chars(v: &Vec<char>) -> (r: Option<i64>)
    ensures
        match r {
            Some(n) => parse_i64(v@) == Some(n as int),
            None => parse_i64(v@) is None,
        },
{
    let negative = v.len() > 0 && v[0] == '-';
    let signed = v.len() > 0 && (v[0] == '-' || v[0] == '+');
    let start: usize = if signed { 1 } else { 0 };
    let ghost body = if signed { v@.drop_first() } else { v@ };
    assert(body =~= v@.skip(start as int));
    if start == v.len() {
        return None;
    }
    let limit: u64 = if negative { 9223372036854775808u64 } else { 9223372036854775807u64 };
    let mut acc: u64 = 0;
    let mut k: usize = start;
    while k < v.len()
        invariant
            start <= k <= v.len(),
            body == v@.skip(start as int),
            body == (if v@.len() > 0 && (v@[0] == '-' || v@[0] == '+') {
                v@.drop_first()
            } else {
                v@
            }),
            limit == (if v@.len() > 0 && v@[0] == '-' {
                9223372036854775808u64
            } else {
                9223372036854775807u64
            }),
            acc <= limit,
            all_digits(body.take(k - start)),
            acc as nat == digits_value(body.take(k - start)),
        decreases v.len() - k,
    {
        let c = v[k];
        assert(body[k - start] == c);
        assert(body.take(k - start + 1).drop_last() =~= body.take(k - start));
        if c < '0' || c > '9' {
            assert(!all_digits(body));
            return None;
        }
        let d: u64 = ((c as u32) - ('0' as u32)) as u64;
        if acc > (limit - d) / 10 {
            proof {
                assert(all_digits(body.take(k - start + 1)));
                assert(digits_value(body.take(k - start + 1)) == acc * 10 + d) by (nonlinear_arith)
                    requires
                        digits_value(body.take(k - start + 1)) == digits_value(body.take(k - start)) * 10 + d,
                        acc as nat == digits_value(body.take(k - start));
                assert(acc * 10 + d > limit) by (nonlinear_arith)
                    requires
                        acc > (limit - d) / 10,
                        d <= 9,
                        d <= limit;
                if all_digits(body) {
                    lemma_digits_value_grows(body, k - start + 1);
                }
            }
            return None;
        }
        proof {
            assert(acc * 10 + d <= limit) by (nonlinear_arith)
                requires
                    acc <= (limit - d) / 10,
                    d <= 9,
                    d <= limit;
        }
        acc = acc * 10 + d;
        k = k + 1;
        assert(all_digits(body.take(k - start)));
    }
    assert(body.take(v.len() - start) =~= body);
    if negative {
        if acc == 9223372036854775808u64 {
            Some(i64::MIN)
        } else {
            Some(-(acc as i64))
        }
    } else {
        Some(acc as i64)
    }
}

// ---------------------------------------------------------------------
// Splitting and joining.
// ---------------------------------------------------------------------

/// `str::split(c)`: the pieces between the occurrences of `c` (one piece
/// when `c` does not occur, empty pieces included).
pub open spec fn split_char(s: Seq<char>, c: char) -> Seq<Seq<char>>
    decreases s.len(),
{
    if before_char(s, c) >= s.len() {
        seq![s]
    } else {
        seq![s.take(before_char(s, c) as int)] + split_char(s.skip(before_char(s, c) as int + 1), c)
    }
}

pub fn split_chars(v: &Vec<char>, c: char) -> (r: Vec<Vec<char>>)
    ensures
        r@.map_values(|p: Vec<char>| p@) == split_char(v@, c),
{
    let mut r: Vec<Vec<char>> = Vec::new();
    let mut rest = slice_chars(v, 0, v.len());
    assert(rest@ =~= v@);
    loop
        invariant
            r@.map_values(|p: Vec<char>| p@) + split_char(rest@, c) == split_char(v@, c),
        decreases rest@.len(),
    {
        let i = index_of_char(&rest, c);
        if i >= rest.len() {
            let ghost before = r@.map_values(|p: Vec<char>| p@);
            r.push(rest);
            assert(r@.map_values(|p: Vec<char>| p@) =~= before.push(rest@));
            assert(before + split_char(rest@, c) =~= before.push(rest@));
            return r;
        }
        let head = slice_chars(&rest, 0, i);
        let tail = slice_chars(&rest, i + 1, rest.len());
        let ghost before = r@.map_values(|p: Vec<char>| p@);
        proof {
            assert(split_char(rest@, c) == seq![head@] + split_char(tail@, c));
        }
        r.push(head);
        assert(r@.map_values(|p: Vec<char>| p@) =~= before.push(head@));
        assert(before + split_char(rest@, c) =~= before.push(head@) + split_char(tail@, c));
        rest = tail;
    }
}

/// `[T]::join(sep)` for strings.
pub open spec fn join(parts: Seq<Seq<char>>, sep: Seq<char>) -> Seq<char>
    decreases parts.len(),
{
    if parts.len() == 0 {
        seq![]
    } else if parts.len() == 1 {
        parts[0]
    } else {
        join(parts.drop_last(), sep) + sep + parts.last()
    }
}

pub fn join_chars(parts: &Vec<Vec<char>>, sep: &str) -> (r: Vec<char>)
    ensures
        r@ == join(parts@.map_values(|p: Vec<char>| p@), sep@),
{
    let ghost all = parts@.map_values(|p: Vec<char>| p@);
    let mut r: Vec<char> = Vec::new();
    let mut k: usize = 0;
    while k < parts.len()
        invariant
            all == parts@.map_values(|p: Vec<char>| p@),
            k <= parts.len(),
            r@ == join(all.take(k as int), sep@),
        decreases parts.len() - k,
    {
        assert(all.take(k + 1).drop_last() =~= all.take(k as int));
        if k > 0 {
            append_str(&mut r, sep);
        }
        append_chars(&mut r, &parts[k]);
        k = k + 1;
        if k == 1 {
            assert(r@ =~= join(all.take(k as int), sep@));
        }
    }
    assert(all.take(parts.len() as int) =~= all);
    r
}

/// The texts joined by `sep`.
pub fn join_strings(v: &Vec<String>, sep: &str) -> (r: String)
    ensures
        r@ == join(string_views(v@), sep@),
{
    let mut parts: Vec<Vec<char>> = Vec::new();
    let mut i: usize = 0;
    while i < v.len()
        invariant
            i <= v.len(),
            parts@.map_values(|p: Vec<char>| p@) == string_views(v@).take(i as int),
        decreases v.len() - i,
    {
        let c = chars_of(v[i].as_str());
        let ghost prev = parts@;
        parts.push(c);
        assert(parts@ == prev.push(c));
        assert(string_views(v@)[i as int] == v@[i as int]@);
        assert(string_views(v@).take(i + 1) =~= string_views(v@).take(i as int).push(v@[i as int]@));
        assert(parts@.map_values(|p: Vec<char>| p@) =~= prev.map_values(|p: Vec<char>| p@).push(c@));
        assert(parts@.map_values(|p: Vec<char>| p@) =~= string_views(v@).take(i + 1));
        i = i + 1;
    }
    assert(string_views(v@).take(v.len() as int) =~= string_views(v@));
    let out = join_chars(&parts, sep);
    string_of(&out)
}

/// `str::trim_end`.
pub fn trim_end_chars(v: &Vec<char>) -> (r: Vec<char>)
    ensures
        r@ == trim_end(v@),
{
    let j = last_non_white_end(v);
    slice_chars(v, 0, j)
}

/// The first position where `t` occurs in `s`.
pub open spec fn first_occurrence(s: Seq<char>, t: Seq<char>, i: int) -> bool {
    occurs_at(s, t, i) && forall|j: int| 0 <= j < i ==> !occurs_at(s, t, j)
}

/// Position of the first occurrence of `t` in `s`, or `None`.
pub fn find_chars(s: &Vec<char>, t: &Vec<char>) -> (r: Option<usize>)
    ensures
        r is None <==> !contains_seq(s@, t@),
        r matches Some(i) ==> first_occurrence(s@, t@, i as int),
{
    let mut i: usize = 0;
    loop
        invariant
            i <= s.len(),
            forall|m: int| 0 <= m < i ==> !occurs_at(s@, t@, m),
        decreases s.len() - i,
    {
        if occurs_at_exec(s, t, i) {
            return Some(i);
        }
        if i == s.len() {
            assert forall|m: int| !occurs_at(s@, t@, m) by {
                if 0 <= m < i {
                }
            }
            return None;
        }
        i = i + 1;
    }
}

// ---------------------------------------------------------------------
// Lower case.
// ---------------------------------------------------------------------

/// What `str::to_lowercase` returns for the text.
pub uninterp spec fn str_lowercase(s: Seq<char>) -> Seq<char>;

/// `str::to_lowercase` (Unicode lower case).
#[verifier::external_body]
pub(crate) fn to_lowercase(s: &str) -> (r: String)
    ensures
        r@ == str_lowercase(s@),
{
    s.to_lowercase()
}

/// What `str::to_uppercase` returns for the text.
pub uninterp spec fn str_uppercase(s: Seq<char>) -> Seq<char>;

/// `str::to_uppercase` (Unicode upper case).
#[verifier::external_body]
pub(crate) fn to_uppercase(s: &str) -> (r: String)
    ensures
        r@ == str_uppercase(s@),
{
    s.to_uppercase()
}

/// Number of trailing copies of `c`.
pub open spec fn trail_char(s: Seq<char>, c: char) -> nat
    decreases s.len(),
{
    if s.len() > 0 && s.last() == c {
        1 + trail_char(s.drop_last(), c)
    } else {
        0
    }
}

/// `str::trim_end_matches(c)`: every trailing `c` removed.
pub open spec fn strip_trailing(s: Seq<char>, c: char) -> Seq<char> {
    s.take(s.len() - trail_char(s, c))
}

proof fn lemma_trail_char_unique(s: Seq<char>, c: char, j: int)
    requires
        0 <= j <= s.len(),
        forall|k: int| j <= k < s.len() ==> #[trigger] s[k] == c,
        j > 0 ==> s[j - 1] != c,
    ensures
        trail_char(s, c) == s.len() - j,
    decreases s.len(),
{
    if j < s.len() {
        assert(s.last() == c);
        let t = s.drop_last();
        assert forall|k: int| j <= k < t.len() implies #[trigger] t[k] == c by {
            assert(t[k] == s[k]);
        }
        if j > 0 {
            assert(t[j - 1] == s[j - 1]);
        }
        lemma_trail_char_unique(t, c, j);
    } else if s.len() > 0 {
        assert(s.last() == s[j - 1]);
    }
}

pub fn strip_trailing_chars(v: &Vec<char>, c: char) -> (r: Vec<char>)
    ensures
        r@ == strip_trailing(v@, c),
{
    let mut j: usize = v.len();
    while j > 0 && v[j - 1] == c
        invariant
            j <= v.len(),
            forall|k: int| j <= k < v.len() ==> #[trigger] v@[k] == c,
        decreases j,
    {
        j = j - 1;
    }
    proof {
        lemma_trail_char_unique(v@, c, j as int);
    }
    slice_chars(v, 0, j)
}

} // verus!

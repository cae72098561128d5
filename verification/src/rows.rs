//! Setting rows: the range hint beside a number editor, the display of a
//! value read raw from the file or as a list, finding and updating a row by
//! its key, and the commit path's formatting and follow-ups.

use vstd::prelude::*;

use crate::text::{
    append_chars, append_str, chars_eq, chars_of, ends_with, ends_with_chars, starts_with,
    starts_with_chars, contains_seq, join_strings, find_chars, first_occurrence,
    parse_i64, parse_i64_chars, signed_decimal, signed_decimal_chars, slice_chars, string_of,
    strip_leading, strip_leading_chars, strip_trailing, strip_trailing_chars, trim, trim_chars,
    trim_end, trim_end_chars, join, join_chars, owned, str_eq, string_views,
};

verus! {

/// `"min–max"`, `"≥ min"`, `"≤ max"`, or nothing.
pub open spec fn spec_range_text(min: Option<Seq<char>>, max: Option<Seq<char>>) -> Seq<char> {
    match (min, max) {
        (Some(lo), Some(hi)) => lo + "–"@ + hi,
        (Some(lo), None) => "≥ "@ + lo,
        (None, Some(hi)) => "≤ "@ + hi,
        (None, None) => seq![],
    }
}

pub fn range_text(min: Option<String>, max: Option<String>) -> (r: String)
    ensures
        r@ == spec_range_text(
            match min { Some(s) => Some(s@), None => None },
            match max { Some(s) => Some(s@), None => None },
        ),
{
    let mut out: Vec<char> = Vec::new();
    match (min, max) {
        (Some(lo), Some(hi)) => {
            append_str(&mut out, lo.as_str());
            append_str(&mut out, "–");
            append_str(&mut out, hi.as_str());
        },
        (Some(lo), None) => {
            append_str(&mut out, "≥ ");
            append_str(&mut out, lo.as_str());
        },
        (None, Some(hi)) => {
            append_str(&mut out, "≤ ");
            append_str(&mut out, hi.as_str());
        },
        (None, None) => {},
    }
    string_of(&out)
}

/// Best-effort decor strip for values outside the schema (their text may
/// carry a trailing comment): the trimmed text up to the first `" #"`,
/// trimmed again at its end.
pub open spec fn spec_strip_decor(raw: Seq<char>) -> Seq<char> {
    let t = trim(raw);
    if contains_seq(t, " #"@) {
        trim_end(t.take(choose|i: int| first_occurrence(t, " #"@, i)))
    } else {
        t
    }
}

pub fn strip_decor(raw: &str) -> (r: String)
    ensures
        r@ == spec_strip_decor(raw@),
{
    let v = chars_of(raw);
    let trimmed = trim_chars(&v);
    let marker = chars_of(" #");
    match find_chars(&trimmed, &marker) {
        Some(i) => {
            proof {
                let j = choose|j: int| first_occurrence(trimmed@, marker@, j);
                if j < i {
                    assert(!crate::text::occurs_at(trimmed@, marker@, j));
                } else if i < j {
                    assert(!crate::text::occurs_at(trimmed@, marker@, i as int));
                }
            }
            let value = slice_chars(&trimmed, 0, i);
            let cut = trim_end_chars(&value);
            string_of(&cut)
        },
        None => string_of(&trimmed),
    }
}

/// `(card, row)` is the first row, cards in order, whose key is `key`.
pub open spec fn first_row_with(keys: Seq<Seq<Seq<char>>>, key: Seq<char>, c: int, r: int) -> bool {
    &&& 0 <= c < keys.len()
    &&& 0 <= r < keys[c].len()
    &&& keys[c][r] == key
    &&& forall|i: int, j: int|
        0 <= i < keys.len() && 0 <= j < keys[i].len() && (i < c || (i == c && j < r)) ==> #[trigger] keys[i][j] != key
}

pub open spec fn keys_view(cards: Seq<Vec<String>>) -> Seq<Seq<Seq<char>>> {
    cards.map_values(|rows: Vec<String>| rows@.map_values(|k: String| k@))
}

/// Where the row with `key` sits among the cards' rows (each card given
/// by its rows' keys): the first match, or `None`.
pub fn find_row(cards: &Vec<Vec<String>>, key: &str) -> (r: Option<(usize, usize)>)
    ensures
        r is None <==> forall|i: int, j: int|
            0 <= i < cards@.len() && 0 <= j < cards@[i]@.len() ==> #[trigger] keys_view(cards@)[i][j] != key@,
        r matches Some(p) ==> first_row_with(keys_view(cards@), key@, p.0 as int, p.1 as int),
{
    let ghost keys = keys_view(cards@);
    let wanted = chars_of(key);
    let mut c: usize = 0;
    while c < cards.len()
        invariant
            keys == keys_view(cards@),
            wanted@ == key@,
            c <= cards.len(),
            forall|i: int, j: int|
                0 <= i < c && 0 <= j < keys[i].len() ==> #[trigger] keys[i][j] != key@,
        decreases cards.len() - c,
    {
        let rows = &cards[c];
        let mut r: usize = 0;
        while r < rows.len()
            invariant
                keys == keys_view(cards@),
                wanted@ == key@,
                c < cards.len(),
                rows == cards@[c as int],
                r <= rows.len(),
                forall|i: int, j: int|
                    0 <= i < c && 0 <= j < keys[i].len() ==> #[trigger] keys[i][j] != key@,
                forall|j: int| 0 <= j < r ==> #[trigger] keys[c as int][j] != key@,
            decreases rows.len() - r,
        {
            let here = chars_of(rows[r].as_str());
            assert(keys[c as int][r as int] == rows@[r as int]@);
            if chars_eq(&here, &wanted) {
                return Some((c, r));
            }
            r = r + 1;
        }
        c = c + 1;
    }
    None
}

/// What `format!("{:?}", s)` gives for a string: the text in double
/// quotes with Rust's escapes.
pub uninterp spec fn str_debug(s: Seq<char>) -> Seq<char>;

/// `Debug` formatting of a string (quoted, escaped).
#[verifier::external_body]
fn debug_quoted(s: &str) -> (r: String)
    ensures
        r@ == str_debug(s@),
{
    format!("{s:?}")
}

/// The kinds of value the commit path distinguishes. Floating-point
/// settings are committed by the caller.
pub enum CommitKind {
    List,
    Bool,
    Integer { min: Option<i64>, max: Option<i64> },
    Text,
    Choice,
    Color,
    Curve,
}

pub open spec fn clamp_opt(v: int, min: Option<i64>, max: Option<i64>) -> int {
    let lo = match min {
        Some(m) => if v < m { m as int } else { v },
        None => v,
    };
    match max {
        Some(m) => if lo > m { m as int } else { lo },
        None => lo,
    }
}

pub open spec fn not_whole_message(raw: Seq<char>) -> Seq<char> {
    "'"@ + raw + "' is not a whole number"@
}

/// Commit form: editor input turned into the value text `set_leaf_text`
/// expects, validated and clamped per kind. `Err` is a user-facing
/// rejection.
pub open spec fn spec_commit_value(kind: Option<CommitKind>, raw: Seq<char>) -> Result<Seq<char>, Seq<char>> {
    let t = trim(raw);
    match kind {
        Some(CommitKind::List) => Ok("["@ + strip_trailing(strip_leading(trim(t), '['), ']') + "]"@),
        Some(CommitKind::Bool) => Ok(t),
        Some(CommitKind::Integer { min, max }) => match parse_i64(t) {
            Some(v) => Ok(signed_decimal(clamp_opt(v, min, max))),
            None => Err(not_whole_message(t)),
        },
        Some(CommitKind::Text) | Some(CommitKind::Choice) | Some(CommitKind::Color) | Some(
            CommitKind::Curve,
        ) => Ok(str_debug(t)),
        None => Ok(t),
    }
}

pub open spec fn str_result(r: Result<String, String>) -> Result<Seq<char>, Seq<char>> {
    match r {
        Ok(s) => Ok(s@),
        Err(e) => Err(e@),
    }
}

pub fn commit_value(kind: Option<&CommitKind>, raw: &str) -> (r: Result<String, String>)
    ensures
        str_result(r) == spec_commit_value(
            match kind {
                Some(k) => Some(*k),
                None => None,
            },
            raw@,
        ),
{
    let v = chars_of(raw);
    let t = trim_chars(&v);
    match kind {
        Some(CommitKind::List) => {
            let again = trim_chars(&t);
            let open = strip_leading_chars(&again, '[');
            let inner = strip_trailing_chars(&open, ']');
            let mut out: Vec<char> = Vec::new();
            append_str(&mut out, "[");
            append_chars(&mut out, &inner);
            append_str(&mut out, "]");
            Ok(string_of(&out))
        },
        Some(CommitKind::Bool) => Ok(string_of(&t)),
        Some(CommitKind::Integer { min, max }) => match parse_i64_chars(&t) {
            Some(parsed) => {
                let mut value: i64 = parsed;
                if let Some(m) = min {
                    if value < *m {
                        value = *m;
                    }
                }
                if let Some(m) = max {
                    if value > *m {
                        value = *m;
                    }
                }
                let digits = signed_decimal_chars(value);
                Ok(string_of(&digits))
            },
            None => {
                let mut msg: Vec<char> = Vec::new();
                append_str(&mut msg, "'");
                append_chars(&mut msg, &t);
                append_str(&mut msg, "' is not a whole number");
                Err(string_of(&msg))
            },
        },
        Some(CommitKind::Text) | Some(CommitKind::Choice) | Some(CommitKind::Color) | Some(
            CommitKind::Curve,
        ) => Ok(debug_quoted(string_of(&t).as_str())),
        None => Ok(string_of(&t)),
    }
}

/// Clamping keeps an integer inside the kind's bounds whenever the bounds
/// are ordered.
pub proof fn lemma_clamp_within(v: int, min: i64, max: i64)
    requires
        min <= max,
    ensures
        min <= clamp_opt(v, Some(min), Some(max)) <= max,
        min <= v <= max ==> clamp_opt(v, Some(min), Some(max)) == v,
{
}

/// Hex colour (`#RRGGBB` or `#RRGGBBAA`, `#` optional) read as its RGB
/// channels; a channel that is missing or not two hex digits reads 0.
pub open spec fn hex_value(c: char) -> Option<nat> {
    if '0' <= c && c <= '9' {
        Some(((c as int) - ('0' as int)) as nat)
    } else if 'a' <= c && c <= 'f' {
        Some(((c as int) - ('a' as int) + 10) as nat)
    } else if 'A' <= c && c <= 'F' {
        Some(((c as int) - ('A' as int) + 10) as nat)
    } else {
        None
    }
}

pub open spec fn channel(hex: Seq<char>, at: int) -> u8 {
    if at + 2 <= hex.len() && hex_value(hex[at]) is Some && hex_value(hex[at + 1]) is Some {
        (hex_value(hex[at])->0 * 16 + hex_value(hex[at + 1])->0) as u8
    } else {
        0
    }
}

pub open spec fn spec_swatch_rgb(value: Seq<char>) -> (u8, u8, u8) {
    let hex = strip_leading(trim(value), '#');
    (channel(hex, 0), channel(hex, 2), channel(hex, 4))
}

fn hex_digit(c: char) -> (r: Option<u8>)
    ensures
        match r {
            Some(d) => hex_value(c) == Some(d as nat),
            None => hex_value(c) is None,
        },
{
    if '0' <= c && c <= '9' {
        Some(((c as u32) - ('0' as u32)) as u8)
    } else if 'a' <= c && c <= 'f' {
        Some(((c as u32) - ('a' as u32) + 10) as u8)
    } else if 'A' <= c && c <= 'F' {
        Some(((c as u32) - ('A' as u32) + 10) as u8)
    } else {
        None
    }
}

fn channel_at(hex: &Vec<char>, at: usize) -> (r: u8)
    requires
        at <= 4,
    ensures
        r == channel(hex@, at as int),
{
    if at + 2 <= hex.len() {
        match (hex_digit(hex[at]), hex_digit(hex[at + 1])) {
            (Some(hi), Some(lo)) => hi * 16 + lo,
            _ => 0,
        }
    } else {
        0
    }
}

/// The swatch colour of a hex colour value.
pub fn swatch_rgb(value: &str) -> (r: (u8, u8, u8))
    ensures
        r == spec_swatch_rgb(value@),
{
    let v = chars_of(value);
    let t = trim_chars(&v);
    let hex = strip_leading_chars(&t, '#');
    (channel_at(&hex, 0), channel_at(&hex, 2), channel_at(&hex, 4))
}

/// Beside the editor: the range of a number kind when it has one, then
/// the unit, joined by `" • "`; empty when there is neither.
pub open spec fn spec_entry_hint(range: Option<Seq<char>>, unit: Option<Seq<char>>) -> Seq<char> {
    let ranges = match range {
        Some(r) => if r.len() > 0 { seq![r] } else { seq![] },
        None => seq![],
    };
    let units = match unit {
        Some(u) => seq![u],
        None => seq![],
    };
    join(ranges + units, " • "@)
}

/// The hint of a schema entry, from its range text (number kinds only)
/// and its unit.
pub fn entry_hint(range: Option<&str>, unit: Option<&str>) -> (r: String)
    ensures
        r@ == spec_entry_hint(
            match range { Some(s) => Some(s@), None => None },
            match unit { Some(s) => Some(s@), None => None },
        ),
{
    let mut hints: Vec<Vec<char>> = Vec::new();
    if let Some(text) = range {
        let v = chars_of(text);
        if v.len() > 0 {
            hints.push(v);
        }
    }
    if let Some(u) = unit {
        let v = chars_of(u);
        hints.push(v);
    }
    let ghost rv: Option<Seq<char>> = match range { Some(s) => Some(s@), None => None };
    let ghost uv: Option<Seq<char>> = match unit { Some(s) => Some(s@), None => None };
    assert(hints@.map_values(|p: Vec<char>| p@) =~= (match rv {
        Some(r) => if r.len() > 0 { seq![r] } else { seq![] },
        None => seq![],
    }) + (match uv {
        Some(u) => seq![u],
        None => seq![],
    }));
    let out = join_chars(&hints, " • ");
    string_of(&out)
}

/// A list value as the list editor reads it: whole numbers, floating-point
/// numbers (each already rendered by the caller), or strings.
pub enum ListValue {
    Integers(Vec<i64>),
    Floats(Vec<String>),
    Strings(Vec<String>),
    Missing,
}

/// Comma-joined list display: integers in decimal, the other kinds as
/// their texts; `None` when the key holds no list.
pub open spec fn spec_list_text(value: ListValue) -> Option<Seq<char>> {
    match value {
        ListValue::Integers(v) => Some(join(v@.map_values(|n: i64| signed_decimal(n as int)), ", "@)),
        ListValue::Floats(v) => Some(join(string_views(v@), ", "@)),
        ListValue::Strings(v) => Some(join(string_views(v@), ", "@)),
        ListValue::Missing => None,
    }
}

/// The numbers in decimal, joined by `", "`.
fn join_integers(v: &Vec<i64>) -> (r: String)
    ensures
        r@ == join(v@.map_values(|n: i64| signed_decimal(n as int)), ", "@),
{
    let ghost want = v@.map_values(|n: i64| signed_decimal(n as int));
    let mut parts: Vec<Vec<char>> = Vec::new();
    let mut i: usize = 0;
    while i < v.len()
        invariant
            i <= v.len(),
            want == v@.map_values(|n: i64| signed_decimal(n as int)),
            parts@.map_values(|p: Vec<char>| p@) == want.take(i as int),
        decreases v.len() - i,
    {
        let d = signed_decimal_chars(v[i]);
        let ghost prev = parts@;
        parts.push(d);
        assert(parts@ == prev.push(d));
        assert(want.take(i + 1) =~= want.take(i as int).push(want[i as int]));
        assert(parts@.map_values(|p: Vec<char>| p@) =~= prev.map_values(|p: Vec<char>| p@).push(d@));
        assert(parts@.map_values(|p: Vec<char>| p@) =~= want.take(i + 1));
        i = i + 1;
    }
    assert(want.take(v.len() as int) =~= want);
    let out = join_chars(&parts, ", ");
    string_of(&out)
}

pub fn list_text(value: &ListValue) -> (r: Option<String>)
    ensures
        match r {
            Some(s) => spec_list_text(*value) == Some(s@),
            None => spec_list_text(*value) is None,
        },
{
    match value {
        ListValue::Integers(v) => Some(join_integers(v)),
        ListValue::Floats(v) => Some(join_strings(v, ", ")),
        ListValue::Strings(v) => Some(join_strings(v, ", ")),
        ListValue::Missing => None,
    }
}

/// What else a committed edit of `key` redraws: the shader assignment
/// dropdowns after an `animation.*.shader` key, and, after an output's
/// resolution, that output's refresh row, whose choices depend on it.
pub struct CommitFollowUps {
    pub shaders: bool,
    pub refresh_row: Option<String>,
}

pub open spec fn spec_refresh_row(key: Seq<char>) -> Option<Seq<char>> {
    if starts_with(key, "output."@) && ends_with(key, ".resolution"@) {
        Some("output."@ + key.subrange(7, key.len() - 11) + ".refresh"@)
    } else {
        None
    }
}

pub fn commit_follow_ups(key: &str) -> (r: CommitFollowUps)
    requires
        starts_with(key@, "output."@) && ends_with(key@, ".resolution"@) ==> key@.len() >= 18,
    ensures
        r.shaders == (starts_with(key@, "animation."@) && ends_with(key@, ".shader"@)),
        match r.refresh_row {
            Some(k) => spec_refresh_row(key@) == Some(k@),
            None => spec_refresh_row(key@) is None,
        },
{
    let v = chars_of(key);
    let shaders = starts_with_chars(&v, &chars_of("animation.")) && ends_with_chars(&v, &chars_of(".shader"));
    let output = chars_of("output.");
    let resolution = chars_of(".resolution");
    let refresh_row = if starts_with_chars(&v, &output) && ends_with_chars(&v, &resolution) {
        proof {
            reveal_strlit("output.");
            reveal_strlit(".resolution");
        }
        let mut out = chars_of("output.");
        let name = slice_chars(&v, 7, v.len() - 11);
        append_chars(&mut out, &name);
        append_str(&mut out, ".refresh");
        Some(string_of(&out))
    } else {
        None
    };
    CommitFollowUps { shaders, refresh_row }
}

/// The status when umbriel's document refuses a value.
pub open spec fn spec_reject_note(key: Seq<char>, value: Seq<char>) -> Seq<char> {
    "umbriel would reject "@ + key + " = "@ + value
}

pub fn reject_note(key: &str, value: &str) -> (r: String)
    ensures
        r@ == spec_reject_note(key@, value@),
{
    let mut out = chars_of("umbriel would reject ");
    append_str(&mut out, key);
    append_str(&mut out, " = ");
    append_str(&mut out, value);
    string_of(&out)
}

/// A setting's label, marked when umbriel applies it only on restart.
pub fn entry_label(label: &str, restart: bool) -> (r: String)
    ensures
        r@ == if restart {
            label@ + " (restart to apply)"@
        } else {
            label@
        },
{
    let mut v = chars_of(label);
    if restart {
        append_str(&mut v, " (restart to apply)");
    }
    string_of(&v)
}

/// A settings row as a card shows it: its key, its value text, and the
/// live text of a slider being dragged (empty otherwise).
pub struct ShownRow {
    pub key: String,
    pub value: String,
    pub preview: String,
}

pub open spec fn shown_view(r: ShownRow) -> (Seq<char>, Seq<char>, Seq<char>) {
    (r.key@, r.value@, r.preview@)
}

pub open spec fn shown_cards(cards: Seq<Vec<ShownRow>>) -> Seq<Seq<(Seq<char>, Seq<char>, Seq<char>)>> {
    cards.map_values(|rows: Vec<ShownRow>| rows@.map_values(|r: ShownRow| shown_view(r)))
}

pub open spec fn shown_keys(cards: Seq<Vec<ShownRow>>) -> Seq<Seq<Seq<char>>> {
    cards.map_values(|rows: Vec<ShownRow>| rows@.map_values(|r: ShownRow| r.key@))
}

/// Where the row with `key` sits, cards in order.
fn find_shown(cards: &Vec<Vec<ShownRow>>, key: &str) -> (r: Option<(usize, usize)>)
    ensures
        r is None <==> forall|i: int, j: int|
            0 <= i < cards@.len() && 0 <= j < cards@[i]@.len() ==> #[trigger] shown_keys(cards@)[i][j] != key@,
        r matches Some(p) ==> first_row_with(shown_keys(cards@), key@, p.0 as int, p.1 as int),
{
    let ghost keys = shown_keys(cards@);
    let mut c: usize = 0;
    while c < cards.len()
        invariant
            keys == shown_keys(cards@),
            c <= cards.len(),
            forall|i: int, j: int| 0 <= i < c && 0 <= j < keys[i].len() ==> #[trigger] keys[i][j] != key@,
        decreases cards.len() - c,
    {
        let rows = &cards[c];
        let mut r: usize = 0;
        while r < rows.len()
            invariant
                keys == shown_keys(cards@),
                c < cards.len(),
                rows == cards@[c as int],
                r <= rows.len(),
                forall|i: int, j: int| 0 <= i < c && 0 <= j < keys[i].len() ==> #[trigger] keys[i][j] != key@,
                forall|j: int| 0 <= j < r ==> #[trigger] keys[c as int][j] != key@,
            decreases rows.len() - r,
        {
            assert(keys[c as int][r as int] == rows@[r as int].key@);
            if str_eq(rows[r].key.as_str(), key) {
                return Some((c, r));
            }
            r = r + 1;
        }
        c = c + 1;
    }
    None
}

/// A rebuilt row replaces the shown one when its text changed, when a
/// drag preview lingers, or when forced (a sibling edit changed its
/// options); an unchanged row is left alone so its editor keeps focus.
pub open spec fn rebuilt_replaces(old: (Seq<char>, Seq<char>, Seq<char>), fresh: ShownRow, force: bool) -> bool {
    force || old.1 != fresh.value@ || old.2.len() > 0
}

/// Hand the row with `key` its rebuilt version; says whether the row was
/// found.
pub fn update_row(cards: &mut Vec<Vec<ShownRow>>, key: &str, fresh: ShownRow, force: bool) -> (found: bool)
    ensures
        found <==> exists|c: int, r: int| first_row_with(shown_keys(old(cards)@), key@, c, r),
        forall|c: int, r: int|
            first_row_with(shown_keys(old(cards)@), key@, c, r) ==> shown_cards(final(cards)@) == if rebuilt_replaces(
                shown_cards(old(cards)@)[c][r],
                fresh,
                force,
            ) {
                shown_cards(old(cards)@).update(c, shown_cards(old(cards)@)[c].update(r, shown_view(fresh)))
            } else {
                shown_cards(old(cards)@)
            },
        !found ==> shown_cards(final(cards)@) == shown_cards(old(cards)@),
{
    match find_shown(cards, key) {
        None => {
            proof {
                assert forall|c: int, r: int| !first_row_with(shown_keys(old(cards)@), key@, c, r) by {
                    if first_row_with(shown_keys(old(cards)@), key@, c, r) {
                        assert(shown_keys(cards@)[c][r] == key@);
                    }
                }
            }
            false
        },
        Some((c, r)) => {
            let ghost before = shown_cards(cards@);
            assert(before[c as int][r as int] == shown_view(cards@[c as int]@[r as int]));
            let write = force || !str_eq(cards[c][r].value.as_str(), fresh.value.as_str()) || cards[c][r].preview.as_str().unicode_len() > 0;
            proof {
                assert forall|c2: int, r2: int| first_row_with(shown_keys(old(cards)@), key@, c2, r2) implies c2 == c && r2 == r by {
                    if c2 < c || (c2 == c && r2 < r) {
                        assert(shown_keys(old(cards)@)[c2][r2] != key@);
                    }
                    if c < c2 || (c == c2 && r < r2) {
                        assert(shown_keys(old(cards)@)[c as int][r as int] != key@);
                    }
                }
            }
            if write {
                let ghost fv = shown_view(fresh);
                let ghost old_cards = cards@;
                let mut rows: Vec<ShownRow> = Vec::new();
                std::mem::swap(&mut rows, &mut cards[c]);
                assert(rows@ == old_cards[c as int]@);
                rows.set(r, fresh);
                let ghost new_rows = rows@;
                std::mem::swap(&mut rows, &mut cards[c]);
                assert(cards@ == old_cards.update(c as int, cards@[c as int]));
                assert(cards@[c as int]@ == new_rows);
                assert(new_rows.map_values(|x: ShownRow| shown_view(x)) =~= before[c as int].update(r as int, fv));
                assert(shown_cards(cards@) =~= before.update(c as int, before[c as int].update(r as int, fv)));
            }
            true
        },
    }
}

/// Show a dragged slider's live value in its row without touching the
/// document: only the preview text changes, and only when it differs.
/// Says whether the row was found.
pub fn preview_row(cards: &mut Vec<Vec<ShownRow>>, key: &str, value_text: &str) -> (found: bool)
    ensures
        found <==> exists|c: int, r: int| first_row_with(shown_keys(old(cards)@), key@, c, r),
        forall|c: int, r: int|
            first_row_with(shown_keys(old(cards)@), key@, c, r) ==> shown_cards(final(cards)@) == shown_cards(old(cards)@).update(
                c,
                shown_cards(old(cards)@)[c].update(
                    r,
                    (shown_cards(old(cards)@)[c][r].0, shown_cards(old(cards)@)[c][r].1, value_text@),
                ),
            ),
        !found ==> shown_cards(final(cards)@) == shown_cards(old(cards)@),
{
    match find_shown(cards, key) {
        None => {
            proof {
                assert forall|c: int, r: int| !first_row_with(shown_keys(old(cards)@), key@, c, r) by {
                    if first_row_with(shown_keys(old(cards)@), key@, c, r) {
                        assert(shown_keys(cards@)[c][r] == key@);
                    }
                }
            }
            false
        },
        Some((c, r)) => {
            let ghost before = shown_cards(cards@);
            let ghost old_row = before[c as int][r as int];
            assert(old_row == shown_view(cards@[c as int]@[r as int]));
            proof {
                assert forall|c2: int, r2: int| first_row_with(shown_keys(old(cards)@), key@, c2, r2) implies c2 == c && r2 == r by {
                    if c2 < c || (c2 == c && r2 < r) {
                        assert(shown_keys(old(cards)@)[c2][r2] != key@);
                    }
                    if c < c2 || (c == c2 && r < r2) {
                        assert(shown_keys(old(cards)@)[c as int][r as int] != key@);
                    }
                }
            }
            if !str_eq(cards[c][r].preview.as_str(), value_text) {
                let patched = ShownRow {
                    key: cards[c][r].key.clone(),
                    value: cards[c][r].value.clone(),
                    preview: owned(value_text),
                };
                let ghost pv = shown_view(patched);
                assert(pv == (old_row.0, old_row.1, value_text@));
                let ghost old_cards = cards@;
                let mut rows: Vec<ShownRow> = Vec::new();
                std::mem::swap(&mut rows, &mut cards[c]);
                assert(rows@ == old_cards[c as int]@);
                rows.set(r, patched);
                let ghost new_rows = rows@;
                std::mem::swap(&mut rows, &mut cards[c]);
                assert(cards@ == old_cards.update(c as int, cards@[c as int]));
                assert(cards@[c as int]@ == new_rows);
                assert(new_rows.map_values(|x: ShownRow| shown_view(x)) =~= before[c as int].update(r as int, pv));
                assert(shown_cards(cards@) =~= before.update(c as int, before[c as int].update(r as int, pv)));
            } else {
                assert(before[c as int].update(r as int, (old_row.0, old_row.1, value_text@)) =~= before[c as int]);
                assert(before.update(c as int, before[c as int]) =~= before);
            }
            true
        },
    }
}

} // verus!

//! The Outputs page's text rules: field hints, the two halves of a mode
//! string, and the workspaces editor's reading and writing.

use vstd::prelude::*;

use crate::text::{
    append_chars, append_str, before_char, chars_eq, chars_of, join, join_chars, join_strings, owned,
    parse_i64, parse_i64_chars, signed_decimal, signed_decimal_chars, slice_chars, split_char,
    split_chars, str_eq, string_of, string_views, trim, trim_chars, index_of_char,
};

verus! {

/// Plain-language description of an output field, shown under the label.
pub open spec fn spec_output_field_hint(key: Seq<char>) -> Seq<char> {
    if key == "enabled"@ {
        "This monitor is active, untick to switch it off."@
    } else
    if key == "mode"@ {
        "Resolution and refresh rate combined, e.g. 3440x1440@164.977."@
    } else
    if key == "position"@ {
        "Where the monitor sits, as x, y. Filled from your current layout."@
    } else
    if key == "scale"@ {
        "Zoom level; 1.0 is native size."@
    } else
    if key == "vrr"@ {
        "Variable refresh rate (FreeSync/G-Sync). Recommended: fullscreen while gaming, otherwise disabled."@
    } else
    if key == "hdr"@ {
        "HDR when the content supports it. Recommended: auto on HDR monitors."@
    } else
    if key == "sdr_white"@ {
        "Brightness of normal (SDR) content in HDR mode, in nits. Recommended: 203."@
    } else
    if key == "transform"@ {
        "Rotate or flip the display. Recommended: normal."@
    } else
    if key == "tearing"@ {
        "Allow tearing for lower input lag. Recommended: off."@
    } else
    if key == "direct_scanout"@ {
        "Send fullscreen apps straight to the display. Recommended: on."@
    } else
    if key == "workspaces"@ {
        "Workspace names for this monitor; dynamic keeps them automatic."@
    } else {
        ""@
    }
}

pub fn output_field_hint(key: &str) -> (r: &'static str)
    ensures
        r@ == spec_output_field_hint(key@),
{
    if str_eq(key, "enabled") {
        "This monitor is active, untick to switch it off."
    } else
    if str_eq(key, "mode") {
        "Resolution and refresh rate combined, e.g. 3440x1440@164.977."
    } else
    if str_eq(key, "position") {
        "Where the monitor sits, as x, y. Filled from your current layout."
    } else
    if str_eq(key, "scale") {
        "Zoom level; 1.0 is native size."
    } else
    if str_eq(key, "vrr") {
        "Variable refresh rate (FreeSync/G-Sync). Recommended: fullscreen while gaming, otherwise disabled."
    } else
    if str_eq(key, "hdr") {
        "HDR when the content supports it. Recommended: auto on HDR monitors."
    } else
    if str_eq(key, "sdr_white") {
        "Brightness of normal (SDR) content in HDR mode, in nits. Recommended: 203."
    } else
    if str_eq(key, "transform") {
        "Rotate or flip the display. Recommended: normal."
    } else
    if str_eq(key, "tearing") {
        "Allow tearing for lower input lag. Recommended: off."
    } else
    if str_eq(key, "direct_scanout") {
        "Send fullscreen apps straight to the display. Recommended: on."
    } else
    if str_eq(key, "workspaces") {
        "Workspace names for this monitor; dynamic keeps them automatic."
    } else {
        ""
    }
}

/// A configured mode string split at its first `@` into resolution and
/// refresh; both empty when there is no `@`.
pub open spec fn spec_mode_parts(mode: Seq<char>) -> (Seq<char>, Seq<char>) {
    let at = before_char(mode, '@') as int;
    if at < mode.len() {
        (mode.take(at), mode.skip(at + 1))
    } else {
        (seq![], seq![])
    }
}

/// The mode string of one configured output (empty when unset), split into
/// its resolution and refresh halves.
pub fn mode_parts(mode: &str) -> (r: (String, String))
    ensures
        (r.0@, r.1@) == spec_mode_parts(mode@),
{
    let v = chars_of(mode);
    let at = index_of_char(&v, '@');
    if at < v.len() {
        let resolution = slice_chars(&v, 0, at);
        let refresh = slice_chars(&v, at + 1, v.len());
        (string_of(&resolution), string_of(&refresh))
    } else {
        (String::new(), String::new())
    }
}

/// A config value as the workspaces editor reads it.
pub enum TomlValue {
    Integer(i64),
    /// An array of strings.
    Strings(Vec<String>),
    Text(String),
    /// Any other kind of value.
    Other,
    /// The key is not set.
    Absent,
}

/// Editor text for an output's workspaces: a bare count, comma-joined
/// names, or the literal string.
pub open spec fn spec_workspaces_text(value: TomlValue) -> Option<Seq<char>> {
    match value {
        TomlValue::Integer(n) => Some(signed_decimal(n as int)),
        TomlValue::Strings(names) => Some(join(string_views(names@), ", "@)),
        TomlValue::Text(s) => Some(s@),
        _ => None,
    }
}

pub fn workspaces_text(value: &TomlValue) -> (r: Option<String>)
    ensures
        match r {
            Some(s) => spec_workspaces_text(*value) == Some(s@),
            None => spec_workspaces_text(*value) is None,
        },
{
    match value {
        TomlValue::Integer(n) => {
            let digits = signed_decimal_chars(*n);
            Some(string_of(&digits))
        },
        TomlValue::Strings(names) => Some(join_strings(names, ", ")),
        TomlValue::Text(s) => Some(s.clone()),
        _ => None,
    }
}

pub open spec fn workspaces_empty_message() -> Seq<char> {
    "workspaces can't be empty — use names, a count, or \"dynamic\""@
}

/// The non-empty trimmed pieces.
pub open spec fn names_of(pieces: Seq<Seq<char>>) -> Seq<Seq<char>>
    decreases pieces.len(),
{
    if pieces.len() == 0 {
        seq![]
    } else if trim(pieces.last()).len() == 0 {
        names_of(pieces.drop_last())
    } else {
        names_of(pieces.drop_last()).push(trim(pieces.last()))
    }
}

/// Each name in double quotes.
pub open spec fn quoted(names: Seq<Seq<char>>) -> Seq<Seq<char>> {
    names.map_values(|n: Seq<char>| "\""@ + n + "\""@)
}

/// The TOML text `set_leaf_text` writes for editor input: a count stays a
/// number, `dynamic` a string, names become an array of strings; empty
/// input (or only commas) is rejected.
pub open spec fn spec_workspaces_parse(raw: Seq<char>) -> Result<Option<Seq<char>>, Seq<char>> {
    let t = trim(raw);
    if t.len() == 0 {
        Err(workspaces_empty_message())
    } else if parse_i64(t) is Some {
        Ok(Some(signed_decimal(parse_i64(t)->0)))
    } else if t == "dynamic"@ {
        Ok(Some("\"dynamic\""@))
    } else if names_of(split_char(t, ',')).len() == 0 {
        Err(workspaces_empty_message())
    } else {
        Ok(Some("["@ + join(quoted(names_of(split_char(t, ','))), ", "@) + "]"@))
    }
}

pub open spec fn parse_result_view(r: Result<Option<String>, String>) -> Result<Option<Seq<char>>, Seq<char>> {
    match r {
        Ok(Some(s)) => Ok(Some(s@)),
        Ok(None) => Ok(None),
        Err(e) => Err(e@),
    }
}

pub fn workspaces_parse(raw: &str) -> (r: Result<Option<String>, String>)
    ensures
        parse_result_view(r) == spec_workspaces_parse(raw@),
{
    let v = chars_of(raw);
    let trimmed = trim_chars(&v);
    if trimmed.len() == 0 {
        return Err(owned("workspaces can't be empty — use names, a count, or \"dynamic\""));
    }
    if let Some(count) = parse_i64_chars(&trimmed) {
        let digits = signed_decimal_chars(count);
        return Ok(Some(string_of(&digits)));
    }
    let dynamic = chars_of("dynamic");
    if chars_eq(&trimmed, &dynamic) {
        return Ok(Some(owned("\"dynamic\"")));
    }
    let pieces = split_chars(&trimmed, ',');
    let ghost all = pieces@.map_values(|p: Vec<char>| p@);
    let mut listed: Vec<Vec<char>> = Vec::new();
    let mut k: usize = 0;
    while k < pieces.len()
        invariant
            all == pieces@.map_values(|p: Vec<char>| p@),
            k <= pieces.len(),
            listed@.map_values(|p: Vec<char>| p@) == quoted(names_of(all.take(k as int))),
        decreases pieces.len() - k,
    {
        let name = trim_chars(&pieces[k]);
        assert(all.take(k + 1).drop_last() =~= all.take(k as int));
        assert(all[k as int] == pieces@[k as int]@);
        if name.len() > 0 {
            let mut q: Vec<char> = Vec::new();
            append_str(&mut q, "\"");
            append_chars(&mut q, &name);
            append_str(&mut q, "\"");
            let ghost before = listed@.map_values(|p: Vec<char>| p@);
            listed.push(q);
            assert(listed@.map_values(|p: Vec<char>| p@) =~= before.push(q@));
            assert(quoted(names_of(all.take(k + 1))) =~= quoted(names_of(all.take(k as int))).push(q@));
        }
        k = k + 1;
    }
    assert(all.take(pieces.len() as int) =~= all);
    if listed.len() == 0 {
        return Err(owned("workspaces can't be empty — use names, a count, or \"dynamic\""));
    }
    let joined = join_chars(&listed, ", ");
    let mut out: Vec<char> = Vec::new();
    append_str(&mut out, "[");
    append_chars(&mut out, &joined);
    append_str(&mut out, "]");
    Ok(Some(string_of(&out)))
}

/// What the workspaces field writes back: a count, the literal
/// `dynamic`, a list of names, or nothing (empty text, or only commas).
pub enum WorkspacesWrite {
    Count(i64),
    Dynamic,
    Names(Vec<String>),
    Nothing,
}

/// A write as values.
pub enum WriteView {
    Count(int),
    Dynamic,
    Names(Seq<Seq<char>>),
    Nothing,
}

/// The typed write for editor text: a bare integer is a count,
/// `dynamic` stays literal, anything else is a comma-separated name list.
pub open spec fn spec_workspaces_write(text: Seq<char>) -> WriteView {
    let t = trim(text);
    if t.len() == 0 {
        WriteView::Nothing
    } else if parse_i64(t) is Some {
        WriteView::Count(parse_i64(t)->0)
    } else if t == "dynamic"@ {
        WriteView::Dynamic
    } else if names_of(split_char(t, ',')).len() > 0 {
        WriteView::Names(names_of(split_char(t, ',')))
    } else {
        WriteView::Nothing
    }
}

pub open spec fn write_view(w: WorkspacesWrite) -> WriteView {
    match w {
        WorkspacesWrite::Nothing => WriteView::Nothing,
        WorkspacesWrite::Count(n) => WriteView::Count(n as int),
        WorkspacesWrite::Dynamic => WriteView::Dynamic,
        WorkspacesWrite::Names(v) => WriteView::Names(string_views(v@)),
    }
}

pub fn workspaces_write(text: &str) -> (r: WorkspacesWrite)
    ensures
        write_view(r) == spec_workspaces_write(text@),
{
    let v = chars_of(text);
    let trimmed = trim_chars(&v);
    if trimmed.len() == 0 {
        return WorkspacesWrite::Nothing;
    }
    if let Some(count) = parse_i64_chars(&trimmed) {
        return WorkspacesWrite::Count(count);
    }
    let dynamic = chars_of("dynamic");
    if chars_eq(&trimmed, &dynamic) {
        return WorkspacesWrite::Dynamic;
    }
    let pieces = split_chars(&trimmed, ',');
    let ghost all = pieces@.map_values(|p: Vec<char>| p@);
    let mut names: Vec<String> = Vec::new();
    let mut k: usize = 0;
    while k < pieces.len()
        invariant
            all == pieces@.map_values(|p: Vec<char>| p@),
            k <= pieces.len(),
            string_views(names@) == names_of(all.take(k as int)),
        decreases pieces.len() - k,
    {
        let name = trim_chars(&pieces[k]);
        assert(all.take(k + 1).drop_last() =~= all.take(k as int));
        assert(all[k as int] == pieces@[k as int]@);
        if name.len() > 0 {
            let ghost before = string_views(names@);
            names.push(string_of(&name));
            assert(string_views(names@) =~= before.push(name@));
        }
        k = k + 1;
    }
    assert(all.take(pieces.len() as int) =~= all);
    if names.len() == 0 {
        WorkspacesWrite::Nothing
    } else {
        WorkspacesWrite::Names(names)
    }
}

} // verus!

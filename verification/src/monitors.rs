//! The Outputs page's monitors: their names and cards, the resolution and
//! refresh choices a detected monitor offers, the text an output field's
//! row shows and the text its editor input is saved as, and adding an
//! output by name.

use vstd::prelude::*;

use crate::catalog::dedup;
use crate::outputs::{
    mode_parts, spec_mode_parts, spec_workspaces_parse, spec_workspaces_text, workspaces_parse,
    workspaces_text, TomlValue,
};
use crate::rows::{commit_value, spec_commit_value, CommitKind};
use crate::text::{
    append_chars, append_str, chars_eq, chars_of, decimal, decimal_chars, owned, parse_i64,
    parse_i64_chars, signed_decimal, signed_decimal_chars, slice_chars, split_char, split_chars,
    copy_strings, has_chars, has_string, join, join_chars, last_index, last_index_of, lemma_last_index, str_eq,
    string_of, string_views, trim, trim_chars,
};

verus! {

/// A display mode a monitor reports: its size, its refresh rate as the
/// mode labels write it (`"164.977"`), and whether it is the preferred one.
pub struct Mode {
    pub width: u32,
    pub height: u32,
    pub refresh: String,
    pub preferred: bool,
}

/// A monitor the compositor reports: its connector name, its modes, and
/// the index of the mode it runs now.
pub struct Monitor {
    pub name: String,
    pub modes: Vec<Mode>,
    pub current: Option<usize>,
}

/// `"WxH"`.
pub open spec fn size_label(width: u32, height: u32) -> Seq<char> {
    decimal(width as nat) + "x"@ + decimal(height as nat)
}

fn size_label_of(mode: &Mode) -> (r: Vec<char>)
    ensures
        r@ == size_label(mode.width, mode.height),
{
    let mut out = decimal_chars(mode.width as u64);
    append_str(&mut out, "x");
    let h = decimal_chars(mode.height as u64);
    append_chars(&mut out, &h);
    out
}

/// The configured names, then each detected name not listed yet.
pub open spec fn with_detected(names: Seq<Seq<char>>, detected: Seq<Seq<char>>) -> Seq<Seq<char>>
    decreases detected.len(),
{
    if detected.len() == 0 {
        names
    } else {
        let before = with_detected(names, detected.drop_last());
        if before.contains(detected.last()) {
            before
        } else {
            before.push(detected.last())
        }
    }
}


/// Configured-then-detected output names, each detected one once.
pub fn output_names(configured: &Vec<String>, detected: &Vec<String>) -> (r: Vec<String>)
    ensures
        string_views(r@) == with_detected(string_views(configured@), string_views(detected@)),
{
    let mut names = copy_strings(configured);
    let ghost dv = string_views(detected@);
    let mut k: usize = 0;
    assert(dv.take(0) =~= Seq::<Seq<char>>::empty());
    while k < detected.len()
        invariant
            k <= detected.len(),
            dv == string_views(detected@),
            string_views(names@) == with_detected(string_views(configured@), dv.take(k as int)),
        decreases detected.len() - k,
    {
        assert(dv.take(k + 1).drop_last() =~= dv.take(k as int));
        assert(dv[k as int] == detected@[k as int]@);
        if !has_string(&names, detected[k].as_str()) {
            let ghost prev = names@;
            names.push(detected[k].clone());
            assert(string_views(names@) =~= string_views(prev).push(dv[k as int]));
        }
        k = k + 1;
    }
    assert(dv.take(detected.len() as int) =~= dv);
    names
}

pub open spec fn mode_labels(modes: Seq<Mode>) -> Seq<Seq<char>> {
    modes.map_values(|m: Mode| size_label(m.width, m.height))
}

/// Distinct resolutions (`"WxH"`) a monitor reports, in report order.
pub fn resolutions(monitor: &Monitor) -> (r: Vec<String>)
    ensures
        string_views(r@) == dedup(mode_labels(monitor.modes@)),
{
    let ghost labels = mode_labels(monitor.modes@);
    let mut seen: Vec<Vec<char>> = Vec::new();
    let mut out: Vec<String> = Vec::new();
    let mut i: usize = 0;
    while i < monitor.modes.len()
        invariant
            i <= monitor.modes.len(),
            labels == mode_labels(monitor.modes@),
            seen@.map_values(|p: Vec<char>| p@) == dedup(labels.take(i as int)),
            string_views(out@) == dedup(labels.take(i as int)),
        decreases monitor.modes.len() - i,
    {
        assert(labels.take(i + 1).drop_last() =~= labels.take(i as int));
        let label = size_label_of(&monitor.modes[i]);
        assert(label@ == labels[i as int]);
        if !has_chars(&seen, &label) {
            let ghost prev_seen = seen@.map_values(|p: Vec<char>| p@);
            let ghost prev_out = string_views(out@);
            out.push(string_of(&label));
            seen.push(label);
            assert(seen@.map_values(|p: Vec<char>| p@) =~= prev_seen.push(labels[i as int]));
            assert(string_views(out@) =~= prev_out.push(labels[i as int]));
        }
        i = i + 1;
    }
    assert(labels.take(monitor.modes.len() as int) =~= labels);
    out
}

/// The refresh texts of the modes at one resolution, in report order.
pub open spec fn refreshes_at(modes: Seq<Mode>, resolution: Seq<char>) -> Seq<Seq<char>>
    decreases modes.len(),
{
    if modes.len() == 0 {
        seq![]
    } else if size_label(modes.last().width, modes.last().height) == resolution {
        refreshes_at(modes.drop_last(), resolution).push(modes.last().refresh@)
    } else {
        refreshes_at(modes.drop_last(), resolution)
    }
}

/// Refresh rates a monitor offers at one resolution.
pub fn refreshes(monitor: &Monitor, resolution: &str) -> (r: Vec<String>)
    ensures
        string_views(r@) == refreshes_at(monitor.modes@, resolution@),
{
    let res = chars_of(resolution);
    let mut out: Vec<String> = Vec::new();
    let mut i: usize = 0;
    while i < monitor.modes.len()
        invariant
            i <= monitor.modes.len(),
            res@ == resolution@,
            string_views(out@) == refreshes_at(monitor.modes@.take(i as int), resolution@),
        decreases monitor.modes.len() - i,
    {
        assert(monitor.modes@.take(i + 1).drop_last() =~= monitor.modes@.take(i as int));
        let label = size_label_of(&monitor.modes[i]);
        if chars_eq(&label, &res) {
            let ghost prev = string_views(out@);
            out.push(monitor.modes[i].refresh.clone());
            assert(string_views(out@) =~= prev.push(monitor.modes@[i as int].refresh@));
        }
        i = i + 1;
    }
    assert(monitor.modes@.take(monitor.modes.len() as int) =~= monitor.modes@);
    out
}

/// The mode a monitor runs now, when it reports one.
pub open spec fn running_mode(m: Monitor) -> Option<Mode> {
    match m.current {
        Some(i) => if i < m.modes@.len() { Some(m.modes@[i as int]) } else { None },
        None => None,
    }
}

/// The resolution and refresh the dropdowns show: the configured mode's
/// halves, or, when it names no resolution, those of the mode the monitor
/// runs now (the resolution dropdown then shows that mode's size, and the
/// refresh dropdown its rate).
pub open spec fn spec_mode_choice(configured: Seq<char>, m: Monitor) -> (Seq<char>, Seq<char>) {
    let (res, refresh) = spec_mode_parts(configured);
    if res.len() == 0 {
        match running_mode(m) {
            Some(mode) => (size_label(mode.width, mode.height), mode.refresh@),
            None => (res, refresh),
        }
    } else {
        (res, refresh)
    }
}

pub fn mode_choice(configured: &str, monitor: &Monitor) -> (r: (String, String))
    ensures
        (r.0@, r.1@) == spec_mode_choice(configured@, *monitor),
{
    let (res, refresh) = mode_parts(configured);
    let rv = chars_of(res.as_str());
    if rv.len() == 0 {
        if let Some(i) = monitor.current {
            if i < monitor.modes.len() {
                let mode = &monitor.modes[i];
                let label = size_label_of(mode);
                return (string_of(&label), mode.refresh.clone());
            }
        }
    }
    (res, refresh)
}

/// How an output field's editor input is read (floating-point fields are
/// formatted by the caller).
pub enum OutputKind {
    Toggle,
    Position,
    Choice,
    Text,
    Workspaces,
}

/// One field of an output's vocabulary.
pub struct OutputField {
    pub key: String,
    pub kind: OutputKind,
}

/// The first monitor with this name.
pub open spec fn find_monitor(ms: Seq<Monitor>, name: Seq<char>) -> Option<Monitor>
    decreases ms.len(),
{
    if ms.len() == 0 {
        None
    } else if ms[0].name@ == name {
        Some(ms[0])
    } else {
        find_monitor(ms.drop_first(), name)
    }
}

/// The first mode of this size that is preferred, else the first mode of
/// this size.
pub open spec fn first_sized(modes: Seq<Mode>, label: Seq<char>, preferred_only: bool) -> Option<Mode>
    decreases modes.len(),
{
    if modes.len() == 0 {
        None
    } else if size_label(modes[0].width, modes[0].height) == label && (!preferred_only || modes[0].preferred) {
        Some(modes[0])
    } else {
        first_sized(modes.drop_first(), label, preferred_only)
    }
}

pub open spec fn pick_mode(modes: Seq<Mode>, label: Seq<char>) -> Option<Mode> {
    match first_sized(modes, label, true) {
        Some(m) => Some(m),
        None => first_sized(modes, label, false),
    }
}

/// The first field with this key.
pub open spec fn find_field(fields: Seq<OutputField>, key: Seq<char>) -> Option<OutputKind>
    decreases fields.len(),
{
    if fields.len() == 0 {
        None
    } else if fields[0].key@ == key {
        Some(fields[0].kind)
    } else {
        find_field(fields.drop_first(), key)
    }
}

/// `str::parse::<i32>`.
pub open spec fn parse_i32(s: Seq<char>) -> Option<int> {
    match parse_i64(s) {
        Some(v) => if -2147483648 <= v <= 2147483647 { Some(v) } else { None },
        None => None,
    }
}

/// The `i`-th comma-separated piece (empty past the last).
pub open spec fn piece(s: Seq<char>, i: int) -> Seq<char> {
    if i < split_char(s, ',').len() { split_char(s, ',')[i] } else { seq![] }
}

pub open spec fn position_message(raw: Seq<char>) -> Seq<char> {
    "'"@ + raw + "' is not an x, y position"@
}

/// An `x, y` position: the first two comma-separated pieces, each a whole
/// number (any further pieces are ignored).
pub open spec fn spec_position(t: Seq<char>) -> Result<Seq<char>, Seq<char>> {
    match (parse_i32(trim(piece(t, 0))), parse_i32(trim(piece(t, 1)))) {
        (Some(x), Some(y)) => Ok("["@ + signed_decimal(x) + ", "@ + signed_decimal(y) + "]"@),
        _ => Err(position_message(t)),
    }
}

pub open spec fn workspaces_message() -> Seq<char> {
    "workspaces: use comma-separated names, a count, or \"dynamic\""@
}

/// The TOML text an output field's editor input is saved as. `key` is
/// `output.<name>.<field>`. The resolution dropdown composes the full mode
/// from the size picked and that size's preferred (else first) reported
/// mode; the refresh dropdown pairs the configured resolution with the
/// rate picked; the other fields are read per their kind from the trimmed
/// input. `Err` is a user-facing rejection.
pub open spec fn spec_format_output_value(
    key: Seq<char>,
    raw: Seq<char>,
    fields: Seq<OutputField>,
    monitors: Seq<Monitor>,
    configured_mode: Seq<char>,
) -> Result<Seq<char>, Seq<char>> {
    let dot = last_index(key, '.');
    let field = key.skip(dot + 1);
    let name = key.subrange(7, dot);
    if field == "resolution"@ {
        match find_monitor(monitors, name) {
            None => Err("no detected monitor for this output"@),
            Some(m) => match pick_mode(m.modes@, raw) {
                None => Err("'"@ + raw + "' is not a mode this monitor reports"@),
                Some(mode) => Ok(raw + "@"@ + mode.refresh@),
            },
        }
    } else if field == "refresh"@ {
        let res = spec_mode_parts(configured_mode).0;
        if res.len() == 0 {
            Err("pick a resolution first"@)
        } else {
            Ok(res + "@"@ + raw)
        }
    } else {
        let t = trim(raw);
        match find_field(fields, field) {
            None => Err("unknown output field in "@ + key),
            Some(OutputKind::Toggle) => if t == "true"@ || t == "false"@ {
                Ok(t)
            } else {
                Err("'"@ + t + "' is not true or false"@)
            },
            Some(OutputKind::Position) => spec_position(t),
            Some(OutputKind::Choice) | Some(OutputKind::Text) => spec_commit_value(Some(CommitKind::Text), t),
            Some(OutputKind::Workspaces) => match spec_workspaces_parse(t) {
                Ok(Some(text)) => Ok(text),
                Ok(None) => Err(workspaces_message()),
                Err(e) => Err(e),
            },
        }
    }
}

fn find_monitor_index(monitors: &Vec<Monitor>, name: &Vec<char>) -> (r: Option<usize>)
    ensures
        match r {
            Some(i) => i < monitors.len() && find_monitor(monitors@, name@) == Some(monitors@[i as int]),
            None => find_monitor(monitors@, name@) is None,
        },
{
    let mut i: usize = 0;
    assert(monitors@.skip(0) =~= monitors@);
    while i < monitors.len()
        invariant
            i <= monitors.len(),
            find_monitor(monitors@, name@) == find_monitor(monitors@.skip(i as int), name@),
        decreases monitors.len() - i,
    {
        assert(monitors@.skip(i as int).drop_first() =~= monitors@.skip(i + 1));
        assert(monitors@.skip(i as int)[0] == monitors@[i as int]);
        let n = chars_of(monitors[i].name.as_str());
        if chars_eq(&n, name) {
            return Some(i);
        }
        i = i + 1;
    }
    assert(monitors@.skip(monitors.len() as int) =~= Seq::<Monitor>::empty());
    None
}

fn first_sized_index(modes: &Vec<Mode>, label: &Vec<char>, preferred_only: bool) -> (r: Option<usize>)
    ensures
        match r {
            Some(i) => i < modes.len() && first_sized(modes@, label@, preferred_only) == Some(modes@[i as int]),
            None => first_sized(modes@, label@, preferred_only) is None,
        },
{
    let mut i: usize = 0;
    assert(modes@.skip(0) =~= modes@);
    while i < modes.len()
        invariant
            i <= modes.len(),
            first_sized(modes@, label@, preferred_only) == first_sized(modes@.skip(i as int), label@, preferred_only),
        decreases modes.len() - i,
    {
        assert(modes@.skip(i as int).drop_first() =~= modes@.skip(i + 1));
        assert(modes@.skip(i as int)[0] == modes@[i as int]);
        let l = size_label_of(&modes[i]);
        if chars_eq(&l, label) && (!preferred_only || modes[i].preferred) {
            return Some(i);
        }
        i = i + 1;
    }
    assert(modes@.skip(modes.len() as int) =~= Seq::<Mode>::empty());
    None
}

fn find_field_index(fields: &Vec<OutputField>, key: &Vec<char>) -> (r: Option<usize>)
    ensures
        match r {
            Some(i) => i < fields.len() && find_field(fields@, key@) == Some(fields@[i as int].kind),
            None => find_field(fields@, key@) is None,
        },
{
    let mut i: usize = 0;
    assert(fields@.skip(0) =~= fields@);
    while i < fields.len()
        invariant
            i <= fields.len(),
            find_field(fields@, key@) == find_field(fields@.skip(i as int), key@),
        decreases fields.len() - i,
    {
        assert(fields@.skip(i as int).drop_first() =~= fields@.skip(i + 1));
        assert(fields@.skip(i as int)[0] == fields@[i as int]);
        let k = chars_of(fields[i].key.as_str());
        if chars_eq(&k, key) {
            return Some(i);
        }
        i = i + 1;
    }
    assert(fields@.skip(fields.len() as int) =~= Seq::<OutputField>::empty());
    None
}

/// `str::parse::<i32>` on a character vector.
fn parse_i32_chars(v: &Vec<char>) -> (r: Option<i32>)
    ensures
        match r {
            Some(n) => parse_i32(v@) == Some(n as int),
            None => parse_i32(v@) is None,
        },
{
    match parse_i64_chars(v) {
        Some(n) => if -2147483648 <= n && n <= 2147483647 {
            Some(n as i32)
        } else {
            None
        },
        None => None,
    }
}

fn position_value(t: &Vec<char>) -> (r: Result<String, String>)
    ensures
        match r {
            Ok(s) => spec_position(t@) == Ok::<Seq<char>, Seq<char>>(s@),
            Err(e) => spec_position(t@) == Err::<Seq<char>, Seq<char>>(e@),
        },
{
    let pieces = split_chars(t, ',');
    let ghost pv = pieces@.map_values(|p: Vec<char>| p@);
    assert(pv == split_char(t@, ','));
    let first: Vec<char> = if pieces.len() > 0 { trim_chars(&pieces[0]) } else { Vec::new() };
    let second: Vec<char> = if pieces.len() > 1 { trim_chars(&pieces[1]) } else { Vec::new() };
    assert(pieces.len() > 0 ==> pv[0] == pieces@[0]@);
    assert(pieces.len() > 1 ==> pv[1] == pieces@[1]@);
    assert(first@ == trim(piece(t@, 0)));
    assert(second@ == trim(piece(t@, 1)));
    match (parse_i32_chars(&first), parse_i32_chars(&second)) {
        (Some(x), Some(y)) => {
            let mut out: Vec<char> = Vec::new();
            append_str(&mut out, "[");
            let xd = signed_decimal_chars(x as i64);
            append_chars(&mut out, &xd);
            append_str(&mut out, ", ");
            let yd = signed_decimal_chars(y as i64);
            append_chars(&mut out, &yd);
            append_str(&mut out, "]");
            Ok(string_of(&out))
        },
        _ => {
            let mut msg: Vec<char> = Vec::new();
            append_str(&mut msg, "'");
            append_chars(&mut msg, t);
            append_str(&mut msg, "' is not an x, y position");
            Err(string_of(&msg))
        },
    }
}

pub open spec fn key_shape(key: Seq<char>) -> bool {
    &&& key.len() >= 7
    &&& key.take(7) == "output."@
    &&& last_index(key, '.') >= 7
}

/// Whether `key` has the `output.<name>.<field>` shape the formatter
/// takes (a key that does not would make it cut the text out of range).
pub fn is_output_key(key: &str) -> (b: bool)
    ensures
        b == key_shape(key@),
{
    let kv = chars_of(key);
    proof {
        lemma_last_index(kv@, '.');
    }
    if kv.len() < 7 {
        return false;
    }
    let head = slice_chars(&kv, 0, 7);
    let prefix = chars_of("output.");
    if !chars_eq(&head, &prefix) {
        return false;
    }
    match last_index_of(&kv, '.') {
        Some(d) => d >= 7,
        None => false,
    }
}

/// Format raw editor input for an output field into the TOML text it is
/// saved as.
pub fn format_output_value(
    key: &str,
    raw: &str,
    fields: &Vec<OutputField>,
    monitors: &Vec<Monitor>,
    configured_mode: &str,
) -> (r: Result<String, String>)
    requires
        key_shape(key@),
    ensures
        match r {
            Ok(s) => spec_format_output_value(key@, raw@, fields@, monitors@, configured_mode@) == Ok::<Seq<char>, Seq<char>>(s@),
            Err(e) => spec_format_output_value(key@, raw@, fields@, monitors@, configured_mode@) == Err::<Seq<char>, Seq<char>>(e@),
        },
{
    let kv = chars_of(key);
    proof {
        lemma_last_index(kv@, '.');
    }
    let dot = match last_index_of(&kv, '.') {
        Some(d) => d,
        None => {
            assert(false);
            0
        },
    };
    let field = slice_chars(&kv, dot + 1, kv.len());
    let name = slice_chars(&kv, 7, dot);
    assert(field@ == kv@.skip(dot + 1));
    assert(name@ == kv@.subrange(7, dot as int));
    let resolution_key = chars_of("resolution");
    let refresh_key = chars_of("refresh");
    if chars_eq(&field, &resolution_key) {
        let m = match find_monitor_index(monitors, &name) {
            Some(i) => &monitors[i],
            None => return Err(owned("no detected monitor for this output")),
        };
        let label = chars_of(raw);
        let pick = match first_sized_index(&m.modes, &label, true) {
            Some(i) => Some(i),
            None => first_sized_index(&m.modes, &label, false),
        };
        return match pick {
            Some(i) => {
                let mut out: Vec<char> = Vec::new();
                append_str(&mut out, raw);
                append_str(&mut out, "@");
                append_str(&mut out, m.modes[i].refresh.as_str());
                Ok(string_of(&out))
            },
            None => {
                let mut msg: Vec<char> = Vec::new();
                append_str(&mut msg, "'");
                append_str(&mut msg, raw);
                append_str(&mut msg, "' is not a mode this monitor reports");
                Err(string_of(&msg))
            },
        };
    }
    if chars_eq(&field, &refresh_key) {
        let (res, _) = mode_parts(configured_mode);
        let rv = chars_of(res.as_str());
        if rv.len() == 0 {
            return Err(owned("pick a resolution first"));
        }
        let mut out: Vec<char> = Vec::new();
        append_chars(&mut out, &rv);
        append_str(&mut out, "@");
        append_str(&mut out, raw);
        return Ok(string_of(&out));
    }
    let v = chars_of(raw);
    let t = trim_chars(&v);
    let kind = match find_field_index(fields, &field) {
        Some(i) => &fields[i].kind,
        None => {
            let mut msg: Vec<char> = Vec::new();
            append_str(&mut msg, "unknown output field in ");
            append_chars(&mut msg, &kv);
            return Err(string_of(&msg));
        },
    };
    match kind {
        OutputKind::Toggle => {
            let yes = chars_of("true");
            let no = chars_of("false");
            if chars_eq(&t, &yes) || chars_eq(&t, &no) {
                Ok(string_of(&t))
            } else {
                let mut msg: Vec<char> = Vec::new();
                append_str(&mut msg, "'");
                append_chars(&mut msg, &t);
                append_str(&mut msg, "' is not true or false");
                Err(string_of(&msg))
            }
        },
        OutputKind::Position => position_value(&t),
        OutputKind::Choice | OutputKind::Text => {
            let ts = string_of(&t);
            commit_value(Some(&CommitKind::Text), ts.as_str())
        },
        OutputKind::Workspaces => {
            let ts = string_of(&t);
            match workspaces_parse(ts.as_str()) {
                Ok(Some(text)) => Ok(text),
                Ok(None) => Err(owned("workspaces: use comma-separated names, a count, or \"dynamic\"")),
                Err(e) => Err(e),
            }
        },
    }
}

/// What the document holds for an output field, read the way its kind
/// reads it.
pub enum OutputRead {
    Toggle(Option<bool>),
    Choice(Option<String>),
    /// The `[x, y]` integers, when the value is an integer array.
    Position(Option<Vec<i64>>),
    Text(Option<String>),
    Workspaces(TomlValue),
}

pub open spec fn text_or_default(value: Option<Seq<char>>, default_text: Seq<char>) -> Seq<char> {
    match value {
        Some(t) => if t.len() > 0 {
            t
        } else {
            default_text
        },
        None => default_text,
    }
}

/// The text an output field's row shows, and whether a toggle is ticked.
/// An unset or empty value shows the field's default (`default_text`; a
/// toggle defaults to on only when `default_on`); a position shows its
/// two integers, or nothing.
pub open spec fn spec_output_value(read: OutputRead, default_text: Seq<char>, default_on: bool) -> (Seq<char>, bool) {
    match read {
        OutputRead::Toggle(b) => {
            let on = match b {
                Some(v) => v,
                None => default_on,
            };
            (if on {
                "true"@
            } else {
                "false"@
            }, on)
        },
        OutputRead::Choice(s) => (text_or_default(opt_text(s), default_text), false),
        OutputRead::Text(s) => (text_or_default(opt_text(s), default_text), false),
        OutputRead::Position(p) => (match p {
            Some(v) => if v@.len() == 2 {
                signed_decimal(v@[0] as int) + ", "@ + signed_decimal(v@[1] as int)
            } else {
                Seq::empty()
            },
            None => Seq::empty(),
        }, false),
        OutputRead::Workspaces(t) => (text_or_default(spec_workspaces_text(t), default_text), false),
    }
}

pub open spec fn opt_text(s: Option<String>) -> Option<Seq<char>> {
    match s {
        Some(t) => Some(t@),
        None => None,
    }
}

fn or_default(value: Option<String>, default_text: &str) -> (r: String)
    ensures
        r@ == text_or_default(opt_text(value), default_text@),
{
    match value {
        Some(t) => if t.as_str().unicode_len() > 0 {
            t
        } else {
            owned(default_text)
        },
        None => owned(default_text),
    }
}

pub fn output_value(read: &OutputRead, default_text: &str, default_on: bool) -> (r: (String, bool))
    ensures
        (r.0@, r.1) == spec_output_value(*read, default_text@, default_on),
{
    match read {
        OutputRead::Toggle(b) => {
            let on = match b {
                Some(v) => *v,
                None => default_on,
            };
            (owned(if on {
                "true"
            } else {
                "false"
            }), on)
        },
        OutputRead::Choice(s) => (or_default(s.clone(), default_text), false),
        OutputRead::Text(s) => (or_default(s.clone(), default_text), false),
        OutputRead::Position(p) => {
            let text = match p {
                Some(v) => if v.len() == 2 {
                    let mut out = signed_decimal_chars(v[0]);
                    append_str(&mut out, ", ");
                    append_chars(&mut out, &signed_decimal_chars(v[1]));
                    string_of(&out)
                } else {
                    String::new()
                },
                None => String::new(),
            };
            (text, false)
        },
        OutputRead::Workspaces(t) => (or_default(workspaces_text(t), default_text), false),
    }
}

/// A monitor's card on the Outputs page.
pub struct MonitorCardPlan {
    pub name: String,
    /// The compositor reports it now.
    pub connected: bool,
    /// The main config has an `[output]` table for it.
    pub configured: bool,
    /// Removing its table leaves another configured output.
    pub removable: bool,
    /// The key its open/closed state is kept under.
    pub key: String,
}

pub open spec fn monitor_card_matches(c: MonitorCardPlan, configured: Seq<Seq<char>>, detected: Seq<Seq<char>>) -> bool {
    &&& c.connected == detected.contains(c.name@)
    &&& c.configured == configured.contains(c.name@)
    &&& c.removable == (configured.len() > 1)
    &&& c.key@ == "monitor:"@ + c.name@
}

/// One card per output name, configured first, then detected.
pub fn monitor_cards_plan(configured: &Vec<String>, detected: &Vec<String>) -> (r: Vec<MonitorCardPlan>)
    ensures
        r@.map_values(|c: MonitorCardPlan| c.name@) == with_detected(string_views(configured@), string_views(detected@)),
        forall|k: int|
            0 <= k < r.len() ==> monitor_card_matches(#[trigger] r@[k], string_views(configured@), string_views(detected@)),
{
    let names = output_names(configured, detected);
    let removable = configured.len() > 1;
    let mut out: Vec<MonitorCardPlan> = Vec::new();
    let mut i: usize = 0;
    while i < names.len()
        invariant
            i <= names.len(),
            removable == (configured.len() > 1),
            out@.map_values(|c: MonitorCardPlan| c.name@) == string_views(names@).take(i as int),
            forall|k: int|
                0 <= k < out.len() ==> monitor_card_matches(#[trigger] out@[k], string_views(configured@), string_views(detected@)),
        decreases names.len() - i,
    {
        let name = &names[i];
        let mut key = chars_of("monitor:");
        append_str(&mut key, name.as_str());
        let c = MonitorCardPlan {
            name: name.clone(),
            connected: has_string(detected, name.as_str()),
            configured: has_string(configured, name.as_str()),
            removable,
            key: string_of(&key),
        };
        let ghost before = out@.map_values(|c: MonitorCardPlan| c.name@);
        out.push(c);
        assert(out@.map_values(|c: MonitorCardPlan| c.name@) =~= before.push(name@));
        assert(string_views(names@).take(i + 1) =~= string_views(names@).take(i as int).push(names@[i as int]@));
        i = i + 1;
    }
    assert(string_views(names@).take(names.len() as int) =~= string_views(names@));
    out
}

/// The line under a monitor's name: its description and the mode it runs
/// now (as the compositor labels it), whichever are known, joined by
/// `" · "`.
pub open spec fn spec_monitor_info(description: Seq<char>, current: Option<Seq<char>>) -> Seq<char> {
    let parts = (if description.len() > 0 {
        seq![description]
    } else {
        seq![]
    }) + match current {
        Some(label) => seq!["Currently "@ + label],
        None => seq![],
    };
    join(parts, " \u{b7} "@)
}

pub fn monitor_info(description: &str, current: Option<&str>) -> (r: String)
    ensures
        r@ == spec_monitor_info(
            description@,
            match current {
                Some(l) => Some(l@),
                None => None,
            },
        ),
{
    let mut parts: Vec<Vec<char>> = Vec::new();
    if description.unicode_len() > 0 {
        parts.push(chars_of(description));
    }
    if let Some(label) = current {
        let mut line = chars_of("Currently ");
        append_str(&mut line, label);
        parts.push(line);
    }
    let ghost want = (if description@.len() > 0 {
        seq![description@]
    } else {
        seq![]
    }) + match current {
        Some(l) => seq!["Currently "@ + l@],
        None => seq![],
    };
    assert(parts@.map_values(|p: Vec<char>| p@) =~= want);
    let joined = join_chars(&parts, " \u{b7} ");
    string_of(&joined)
}

/// Adding an output by connector name: the trimmed name, unless it is
/// empty or already listed (configured or detected).
pub open spec fn spec_add_output(name: Seq<char>, configured: Seq<Seq<char>>, detected: Seq<Seq<char>>) -> Result<Seq<char>, Seq<char>> {
    let n = trim(name);
    if n.len() == 0 {
        Err("Enter a connector name first, e.g. DP-3."@)
    } else if with_detected(configured, detected).contains(n) {
        Err(n + " is already listed"@)
    } else {
        Ok(n)
    }
}

pub fn add_output(name: &str, configured: &Vec<String>, detected: &Vec<String>) -> (r: Result<String, String>)
    ensures
        match r {
            Ok(n) => spec_add_output(name@, string_views(configured@), string_views(detected@)) == Ok::<Seq<char>, Seq<char>>(n@),
            Err(e) => spec_add_output(name@, string_views(configured@), string_views(detected@)) == Err::<Seq<char>, Seq<char>>(e@),
        },
{
    let v = chars_of(name);
    let t = trim_chars(&v);
    let n = string_of(&t);
    if t.len() == 0 {
        return Err(owned("Enter a connector name first, e.g. DP-3."));
    }
    let names = output_names(configured, detected);
    if has_string(&names, n.as_str()) {
        let mut e = t;
        append_str(&mut e, " is already listed");
        return Err(string_of(&e));
    }
    Ok(n)
}

} // verus!

//! The keybind editor's decisions: what an action puts in the editor,
//! what an existing bind opens it with, whether a draft can be applied
//! and which bind it writes, where a brand-new bind goes, the action and
//! app pickers, the chord's key caps and special keys, and folding groups.

use vstd::prelude::*;

use crate::keybinds::{spawn_command, spec_spawn_command, BindExtras};
use crate::text::{label_index, label_position, lemma_label_index_found, lemma_label_index_in_range};
use crate::text::{
    append_str, before_char, lemma_before_char_unique, chars_of, contains_chars, contains_seq, decimal, decimal_chars,
    index_of_char, last_index, last_index_of, lemma_last_index, owned, parse_i64, parse_i64_chars, slice_chars, split_char, split_chars, str_eq,
    str_lowercase, str_uppercase, string_of, string_views, to_lowercase, to_uppercase, trim,
    trim_chars, trim_str,
};

verus! {

/// The parameter an action takes, as umbriel describes it.
pub enum ParamKind {
    /// Takes no parameter.
    NoParam,
    /// A shell command.
    Command,
    /// Free text, with a hint of what it holds.
    Text(String),
    /// One of fixed choices (never an empty list).
    Choice(Vec<String>),
}

pub enum KindView {
    NoParam,
    Command,
    Text(Seq<char>),
    Choice(Seq<Seq<char>>),
}

pub open spec fn kind_view(k: ParamKind) -> KindView {
    match k {
        ParamKind::NoParam => KindView::NoParam,
        ParamKind::Command => KindView::Command,
        ParamKind::Text(h) => KindView::Text(h@),
        ParamKind::Choice(cs) => KindView::Choice(string_views(cs@)),
    }
}

/// The editor's parameter widget.
#[derive(PartialEq, Eq, Structural, Clone, Copy, Debug)]
pub enum ParamInput {
    NoParam,
    App,
    Command,
    Text,
    Choice,
}

/// An action the running umbriel offers.
pub struct LiveAction {
    pub name: String,
    pub summary: String,
    pub kind: ParamKind,
}

pub open spec fn action_names(actions: Seq<LiveAction>) -> Seq<Seq<char>> {
    actions.map_values(|a: LiveAction| a.name@)
}

/// Every choice list umbriel offers has a choice.
pub open spec fn choices_nonempty(actions: Seq<LiveAction>) -> bool {
    forall|i: int|
        0 <= i < actions.len() ==> match #[trigger] kind_view(actions[i].kind) {
            KindView::Choice(cs) => cs.len() > 0,
            _ => true,
        }
}

/// What the editor shows for a chosen action.
pub struct DraftAction {
    /// The action written to the file.
    pub action: String,
    pub summary: String,
    pub param: String,
    pub input: ParamInput,
    /// The text parameter's hint, for a text parameter.
    pub hint: Option<String>,
    /// The choice list's labels (an empty choice reads "none"), for a
    /// choice parameter.
    pub choices: Vec<String>,
    /// The choice shown, for a choice parameter.
    pub choice_index: usize,
}

pub open spec fn choice_label(c: Seq<char>) -> Seq<char> {
    if c.len() == 0 {
        "none"@
    } else {
        c
    }
}

pub open spec fn choice_labels(cs: Seq<Seq<char>>) -> Seq<Seq<char>> {
    cs.map_values(|c: Seq<char>| choice_label(c))
}

/// The choice a parameter selects: its own position, else the first.
pub open spec fn choice_at(cs: Seq<Seq<char>>, param: Seq<char>) -> int {
    match label_index(cs, param) {
        Some(i) => i,
        None => 0,
    }
}

/// The editor for an action (`name` may also be `"spawn:app"`, launching
/// an app) and its parameter: the two uses of `spawn` get their own
/// widgets, an action umbriel lists gets its summary and its parameter's
/// widget, and one it does not list still round-trips as free text. A
/// choice parameter starts on its own choice, else the first, so what is
/// shown is what saves.
pub open spec fn draft_matches(r: DraftAction, name: Seq<char>, param: Seq<char>, actions: Seq<LiveAction>) -> bool {
    if name == "spawn:app"@ {
        &&& r.action@ == "spawn"@
        &&& r.summary@ == "Launch an app"@
        &&& r.param@ == param
        &&& r.input == ParamInput::App
        &&& r.hint is None
        &&& r.choices@.len() == 0
    } else if name == "spawn"@ {
        &&& r.action@ == "spawn"@
        &&& r.summary@ == "Run a shell command"@
        &&& r.param@ == param
        &&& r.input == ParamInput::Command
        &&& r.hint is None
        &&& r.choices@.len() == 0
    } else {
        let live = label_index(action_names(actions), name);
        let kind = match live {
            Some(i) => kind_view(actions[i].kind),
            None => KindView::Text(Seq::empty()),
        };
        &&& r.action@ == name
        &&& r.summary@ == match live {
            Some(i) => actions[i].summary@,
            None => Seq::empty(),
        }
        &&& match kind {
            KindView::NoParam => r.param@ == param && r.input == ParamInput::NoParam && r.hint is None
                && r.choices@.len() == 0,
            KindView::Command => r.param@ == param && r.input == ParamInput::Command && r.hint is None
                && r.choices@.len() == 0,
            KindView::Text(h) => r.param@ == param && r.input == ParamInput::Text && (r.hint matches Some(t)
                && t@ == h) && r.choices@.len() == 0,
            KindView::Choice(cs) => {
                &&& r.input == ParamInput::Choice
                &&& r.choice_index == choice_at(cs, param)
                &&& r.param@ == cs[choice_at(cs, param)]
                &&& string_views(r.choices@) == choice_labels(cs)
                &&& r.hint is None
            },
        }
    }
}

fn names_of(actions: &Vec<LiveAction>) -> (r: Vec<String>)
    ensures
        string_views(r@) == action_names(actions@),
{
    let mut out: Vec<String> = Vec::new();
    let mut i: usize = 0;
    while i < actions.len()
        invariant
            i <= actions.len(),
            string_views(out@) == action_names(actions@).take(i as int),
        decreases actions.len() - i,
    {
        let ghost prev = out@;
        let name = actions[i].name.clone();
        out.push(name);
        assert(string_views(out@) =~= string_views(prev).push(name@));
        assert(action_names(actions@).take(i + 1) =~= action_names(actions@).take(i as int).push(actions@[i as int].name@));
        i = i + 1;
    }
    assert(action_names(actions@).take(actions.len() as int) =~= action_names(actions@));
    out
}

fn labels_of(cs: &Vec<String>) -> (r: Vec<String>)
    ensures
        string_views(r@) == choice_labels(string_views(cs@)),
{
    let mut out: Vec<String> = Vec::new();
    let mut i: usize = 0;
    while i < cs.len()
        invariant
            i <= cs.len(),
            string_views(out@) == choice_labels(string_views(cs@)).take(i as int),
        decreases cs.len() - i,
    {
        let label = if cs[i].as_str().unicode_len() == 0 {
            owned("none")
        } else {
            cs[i].clone()
        };
        let ghost prev = out@;
        out.push(label);
        assert(string_views(out@) =~= string_views(prev).push(label@));
        assert(choice_labels(string_views(cs@)).take(i + 1) =~= choice_labels(string_views(cs@)).take(i as int).push(choice_label(cs@[i as int]@)));
        i = i + 1;
    }
    assert(choice_labels(string_views(cs@)).take(cs.len() as int) =~= choice_labels(string_views(cs@)));
    out
}

/// What the editor shows for the action `name` with parameter `param`.
pub fn draft_action(name: &str, param: &str, actions: &Vec<LiveAction>) -> (r: DraftAction)
    requires
        choices_nonempty(actions@),
    ensures
        draft_matches(r, name@, param@, actions@),
{
    if str_eq(name, "spawn:app") {
        return DraftAction {
            action: owned("spawn"),
            summary: owned("Launch an app"),
            param: owned(param),
            input: ParamInput::App,
            hint: None,
            choices: Vec::new(),
            choice_index: 0,
        };
    }
    if str_eq(name, "spawn") {
        return DraftAction {
            action: owned("spawn"),
            summary: owned("Run a shell command"),
            param: owned(param),
            input: ParamInput::Command,
            hint: None,
            choices: Vec::new(),
            choice_index: 0,
        };
    }
    let names = names_of(actions);
    let live = label_position(&names, name);
    proof {
        lemma_label_index_in_range(action_names(actions@), name@);
    }
    let summary = match live {
        Some(i) => actions[i].summary.clone(),
        None => String::new(),
    };
    let none_kind = ParamKind::Text(String::new());
    let kind = match live {
        Some(i) => &actions[i].kind,
        None => &none_kind,
    };
    match kind {
        ParamKind::NoParam => DraftAction {
            action: owned(name),
            summary,
            param: owned(param),
            input: ParamInput::NoParam,
            hint: None,
            choices: Vec::new(),
            choice_index: 0,
        },
        ParamKind::Command => DraftAction {
            action: owned(name),
            summary,
            param: owned(param),
            input: ParamInput::Command,
            hint: None,
            choices: Vec::new(),
            choice_index: 0,
        },
        ParamKind::Text(h) => DraftAction {
            action: owned(name),
            summary,
            param: owned(param),
            input: ParamInput::Text,
            hint: Some(h.clone()),
            choices: Vec::new(),
            choice_index: 0,
        },
        ParamKind::Choice(cs) => {
            proof {
                lemma_label_index_in_range(string_views(cs@), param@);
                assert(kind_view(actions@[live.unwrap() as int].kind) == KindView::Choice(string_views(cs@)));
            }
            let index = match label_position(cs, param) {
                Some(i) => i,
                None => 0,
            };
            DraftAction {
                action: owned(name),
                summary,
                param: cs[index].clone(),
                input: ParamInput::Choice,
                hint: None,
                choices: labels_of(cs),
                choice_index: index,
            }
        },
    }
}

/// An installed app the picker offers.
pub struct AppEntry {
    pub name: String,
    pub command: String,
}

pub open spec fn app_commands(apps: Seq<AppEntry>) -> Seq<Seq<char>> {
    apps.map_values(|a: AppEntry| a.command@)
}

/// The command a spawn action runs: its text after `spawn:`, or nothing
/// yet for a bare `spawn`.
pub open spec fn spawn_param(action: Seq<char>) -> Option<Seq<char>> {
    if action == "spawn"@ {
        Some(Seq::empty())
    } else {
        spec_spawn_command(action)
    }
}

/// A spawn bind whose command is an installed app's, or still empty,
/// edits as "launch an app": the command and the app's name (empty for
/// none). Any other action, or another command, edits as it is.
pub fn app_mode(action: &str, apps: &Vec<AppEntry>) -> (r: Option<(String, String)>)
    ensures
        match spawn_param(action@) {
            None => r is None,
            Some(c) => {
                let found = label_index(app_commands(apps@), c);
                if c.len() == 0 || found is Some {
                    r matches Some(p) && p.0@ == c && p.1@ == match found {
                        Some(i) => apps@[i].name@,
                        None => Seq::empty(),
                    }
                } else {
                    r is None
                }
            },
        },
{
    let command = if str_eq(action, "spawn") {
        String::new()
    } else {
        match spawn_command(action) {
            Some(c) => c,
            None => return None,
        }
    };
    let mut commands: Vec<String> = Vec::new();
    let mut i: usize = 0;
    while i < apps.len()
        invariant
            i <= apps.len(),
            string_views(commands@) == app_commands(apps@).take(i as int),
        decreases apps.len() - i,
    {
        let ghost prev = commands@;
        let command = apps[i].command.clone();
        commands.push(command);
        assert(string_views(commands@) =~= string_views(prev).push(command@));
        assert(app_commands(apps@).take(i + 1) =~= app_commands(apps@).take(i as int).push(apps@[i as int].command@));
        i = i + 1;
    }
    assert(app_commands(apps@).take(apps.len() as int) =~= app_commands(apps@));
    let found = label_position(&commands, command.as_str());
    proof {
        lemma_label_index_in_range(app_commands(apps@), command@);
    }
    if command.as_str().unicode_len() == 0 || found.is_some() {
        let name = match found {
            Some(k) => apps[k].name.clone(),
            None => String::new(),
        };
        Some((command, name))
    } else {
        None
    }
}

/// The editor opened on a bind: its action split at the first `:` into
/// name and parameter, its options, and whether the advanced options
/// start open (a scope, submap or cooldown is set).
pub struct EditorDraft {
    pub name: String,
    pub param: String,
    pub no_repeat: bool,
    pub locked: bool,
    pub inhibited: bool,
    pub cooldown: String,
    pub submap: String,
    pub advanced_open: bool,
}

pub open spec fn split_action(action: Seq<char>) -> (Seq<char>, Seq<char>) {
    let colon = before_char(action, ':') as int;
    if colon < action.len() {
        (action.take(colon), action.skip(colon + 1))
    } else {
        (action, Seq::empty())
    }
}

/// The editor for `action`, with the chord's `scope` and, when editing an
/// existing bind, its options.
pub fn editor_draft(action: &str, scope: &str, bind: Option<&BindExtras>) -> (r: EditorDraft)
    ensures
        r.name@ == split_action(action@).0,
        r.param@ == split_action(action@).1,
        r.no_repeat == (bind matches Some(b) && b.repeat == Some(false)),
        r.locked == (bind matches Some(b) && b.allow_when_locked == Some(true)),
        r.inhibited == (bind matches Some(b) && b.allow_when_inhibited == Some(true)),
        r.cooldown@ == match bind {
            Some(b) => match b.cooldown_ms {
                Some(ms) => decimal(ms as nat),
                None => Seq::empty(),
            },
            None => Seq::empty(),
        },
        r.submap@ == match bind {
            Some(b) => match b.submap {
                Some(s) => s@,
                None => Seq::empty(),
            },
            None => Seq::empty(),
        },
        r.advanced_open == (scope@.len() > 0 || r.submap@.len() > 0 || r.cooldown@.len() > 0),
{
    let v = chars_of(action);
    let colon = index_of_char(&v, ':');
    let (name, param) = if colon < v.len() {
        (string_of(&slice_chars(&v, 0, colon)), string_of(&slice_chars(&v, colon + 1, v.len())))
    } else {
        (owned(action), String::new())
    };
    let (no_repeat, locked, inhibited, cooldown, submap) = match bind {
        Some(b) => (
            b.repeat == Some(false),
            b.allow_when_locked == Some(true),
            b.allow_when_inhibited == Some(true),
            match b.cooldown_ms {
                Some(ms) => string_of(&decimal_chars(ms)),
                None => String::new(),
            },
            match &b.submap {
                Some(s) => s.clone(),
                None => String::new(),
            },
        ),
        None => (false, false, false, String::new(), String::new()),
    };
    let advanced_open = scope.unicode_len() > 0 || submap.as_str().unicode_len() > 0 || cooldown.as_str().unicode_len() > 0;
    EditorDraft { name, param, no_repeat, locked, inhibited, cooldown, submap, advanced_open }
}

/// The editor's fields when the user applies it.
pub struct DraftFields {
    /// The key combination as typed or recorded, without its scope.
    pub chord: String,
    pub action: String,
    pub param: String,
    pub input: ParamInput,
    pub cooldown: String,
    pub submap: String,
    pub no_repeat: bool,
    pub locked: bool,
    pub inhibited: bool,
}

/// A bind as the editor writes it.
pub struct BindDraft {
    /// The key combination without its scope.
    pub chord: String,
    pub action: String,
    pub repeat: Option<bool>,
    pub allow_when_locked: Option<bool>,
    pub allow_when_inhibited: Option<bool>,
    pub cooldown_ms: Option<i64>,
    pub submap: Option<String>,
}

/// A cooldown is a whole number of milliseconds up to an hour.
pub open spec fn cooldown_ok(text: Seq<char>) -> bool {
    match parse_i64(text) {
        Some(ms) => 0 <= ms <= 3600000,
        None => false,
    }
}

/// Why a draft cannot be applied, in the order the editor checks.
pub open spec fn draft_error(d: DraftFields) -> Option<Seq<char>> {
    let param = trim(d.param@);
    let cooldown = trim(d.cooldown@);
    if trim(d.chord@).len() == 0 {
        Some("Record or type a key combination."@)
    } else if d.action@.len() == 0 {
        Some("Choose an action."@)
    } else if param.len() == 0 && d.input == ParamInput::App {
        Some("Choose an app."@)
    } else if param.len() == 0 && d.input == ParamInput::Command {
        Some("Enter a command."@)
    } else if cooldown.len() > 0 && !cooldown_ok(cooldown) {
        Some("Cooldown is milliseconds, from 0 to 3600000."@)
    } else {
        None
    }
}

/// The bind a draft writes: the action with its trimmed parameter after
/// a `:` (none when empty), the options that differ from the defaults,
/// the cooldown when one is given and the submap when one is named.
pub open spec fn draft_bind_matches(b: BindDraft, d: DraftFields) -> bool {
    let param = trim(d.param@);
    let cooldown = trim(d.cooldown@);
    let submap = trim(d.submap@);
    &&& b.chord@ == trim(d.chord@)
    &&& b.action@ == if param.len() == 0 {
        d.action@
    } else {
        d.action@ + ":"@ + param
    }
    &&& b.repeat == if d.no_repeat {
        Some(false)
    } else {
        None
    }
    &&& b.allow_when_locked == if d.locked {
        Some(true)
    } else {
        None
    }
    &&& b.allow_when_inhibited == if d.inhibited {
        Some(true)
    } else {
        None
    }
    &&& match b.cooldown_ms {
        Some(ms) => cooldown.len() > 0 && parse_i64(cooldown) == Some(ms as int),
        None => cooldown.len() == 0,
    }
    &&& match b.submap {
        Some(s) => submap.len() > 0 && s@ == submap,
        None => submap.len() == 0,
    }
}

/// Check the editor's fields and make the bind they describe, or say
/// what is missing.
pub fn apply_draft(d: &DraftFields) -> (r: Result<BindDraft, String>)
    ensures
        match r {
            Ok(b) => draft_error(*d) is None && draft_bind_matches(b, *d),
            Err(e) => draft_error(*d) == Some(e@),
        },
{
    let chord = trim_str(d.chord.as_str());
    if chord.as_str().unicode_len() == 0 {
        return Err(owned("Record or type a key combination."));
    }
    if d.action.as_str().unicode_len() == 0 {
        return Err(owned("Choose an action."));
    }
    let param = trim_str(d.param.as_str());
    let empty_param = param.as_str().unicode_len() == 0;
    if empty_param && d.input == ParamInput::App {
        return Err(owned("Choose an app."));
    }
    if empty_param && d.input == ParamInput::Command {
        return Err(owned("Enter a command."));
    }
    let cooldown = chars_of(d.cooldown.as_str());
    let cooldown = trim_chars(&cooldown);
    let cooldown_ms = if cooldown.len() == 0 {
        None
    } else {
        match parse_i64_chars(&cooldown) {
            Some(ms) if 0 <= ms && ms <= 3600000 => Some(ms),
            _ => return Err(owned("Cooldown is milliseconds, from 0 to 3600000.")),
        }
    };
    let action = if empty_param {
        d.action.clone()
    } else {
        let mut v = chars_of(d.action.as_str());
        append_str(&mut v, ":");
        append_str(&mut v, param.as_str());
        string_of(&v)
    };
    let submap = trim_str(d.submap.as_str());
    let submap = if submap.as_str().unicode_len() == 0 {
        None
    } else {
        Some(submap)
    };
    Ok(BindDraft {
        chord,
        action,
        repeat: if d.no_repeat {
            Some(false)
        } else {
            None
        },
        allow_when_locked: if d.locked {
            Some(true)
        } else {
            None
        },
        allow_when_inhibited: if d.inhibited {
            Some(true)
        } else {
            None
        },
        cooldown_ms,
        submap,
    })
}

/// Where a brand-new bind goes: where `[keybinds]` already lives. The
/// main file (`None`) when it has binds, else the first include that
/// does, else the main file, which gets the table on save.
pub fn new_bind_home(main_has_binds: bool, includes_have_binds: &Vec<bool>) -> (r: Option<usize>)
    ensures
        main_has_binds ==> r is None,
        !main_has_binds ==> match r {
            Some(i) => i < includes_have_binds.len() && includes_have_binds@[i as int] && forall|j: int|
                0 <= j < i ==> !#[trigger] includes_have_binds@[j],
            None => forall|j: int| 0 <= j < includes_have_binds.len() ==> !#[trigger] includes_have_binds@[j],
        },
{
    if main_has_binds {
        return None;
    }
    let mut i: usize = 0;
    while i < includes_have_binds.len()
        invariant
            !main_has_binds,
            i <= includes_have_binds.len(),
            forall|j: int| 0 <= j < i ==> !#[trigger] includes_have_binds@[j],
        decreases includes_have_binds.len() - i,
    {
        if includes_have_binds[i] {
            return Some(i);
        }
        i = i + 1;
    }
    None
}

/// A line of the action picker: the action's name, its summary, and the
/// name the editor is pointed at when it is picked.
pub struct ActionChoice {
    pub name: String,
    pub summary: String,
    pub value: String,
}

pub open spec fn line_view(c: ActionChoice) -> (Seq<char>, Seq<char>, Seq<char>) {
    (c.name@, c.summary@, c.value@)
}

pub open spec fn lines_view(v: Seq<ActionChoice>) -> Seq<(Seq<char>, Seq<char>, Seq<char>)> {
    v.map_values(|c: ActionChoice| line_view(c))
}

/// The picker lines of one action: `spawn` is listed as its two uses.
pub open spec fn action_lines(a: LiveAction) -> Seq<(Seq<char>, Seq<char>, Seq<char>)> {
    if a.name@ == "spawn"@ {
        seq![("spawn"@, "Launch an app"@, "spawn:app"@), ("spawn"@, "Run a shell command"@, "spawn"@)]
    } else {
        seq![(a.name@, a.summary@, a.name@)]
    }
}

pub open spec fn all_lines(actions: Seq<LiveAction>) -> Seq<(Seq<char>, Seq<char>, Seq<char>)>
    decreases actions.len(),
{
    if actions.len() == 0 {
        seq![]
    } else {
        all_lines(actions.drop_last()) + action_lines(actions.last())
    }
}

/// A line matches when its name holds the lower-cased filter, or its
/// lower-cased summary does.
pub open spec fn line_matches(l: (Seq<char>, Seq<char>, Seq<char>), lowered: Seq<char>) -> bool {
    contains_seq(l.0, lowered) || contains_seq(str_lowercase(l.1), lowered)
}

pub open spec fn matching_lines(ls: Seq<(Seq<char>, Seq<char>, Seq<char>)>, lowered: Seq<char>) -> Seq<(Seq<char>, Seq<char>, Seq<char>)>
    decreases ls.len(),
{
    if ls.len() == 0 {
        seq![]
    } else if line_matches(ls.last(), lowered) {
        matching_lines(ls.drop_last(), lowered).push(ls.last())
    } else {
        matching_lines(ls.drop_last(), lowered)
    }
}

fn push_line(out: &mut Vec<ActionChoice>, name: &str, summary: &str, value: &str)
    ensures
        lines_view(final(out)@) == lines_view(old(out)@).push((name@, summary@, value@)),
{
    let ghost before = lines_view(out@);
    let c = ActionChoice { name: owned(name), summary: owned(summary), value: owned(value) };
    out.push(c);
    assert(lines_view(out@) =~= before.push((name@, summary@, value@)));
}

/// Every line of the action picker, in the order umbriel lists its actions.
pub fn action_choices(actions: &Vec<LiveAction>) -> (r: Vec<ActionChoice>)
    ensures
        lines_view(r@) == all_lines(actions@),
{
    let mut out: Vec<ActionChoice> = Vec::new();
    let mut i: usize = 0;
    while i < actions.len()
        invariant
            i <= actions.len(),
            lines_view(out@) == all_lines(actions@.take(i as int)),
        decreases actions.len() - i,
    {
        let a = &actions[i];
        assert(actions@.take(i + 1).drop_last() =~= actions@.take(i as int));
        assert(actions@.take(i + 1).last() == *a);
        let ghost before = lines_view(out@);
        if str_eq(a.name.as_str(), "spawn") {
            push_line(&mut out, "spawn", "Launch an app", "spawn:app");
            push_line(&mut out, "spawn", "Run a shell command", "spawn");
            assert(lines_view(out@) =~= before + action_lines(*a));
        } else {
            push_line(&mut out, a.name.as_str(), a.summary.as_str(), a.name.as_str());
            assert(lines_view(out@) =~= before + action_lines(*a));
        }
        i = i + 1;
    }
    assert(actions@.take(actions.len() as int) =~= actions@);
    out
}

/// The action picker's lines that match the filter text.
pub fn action_matches(actions: &Vec<LiveAction>, text: &str) -> (r: Vec<ActionChoice>)
    ensures
        lines_view(r@) == matching_lines(all_lines(actions@), str_lowercase(trim(text@))),
{
    let lines = action_choices(actions);
    let ghost lv = lines_view(lines@);
    let trimmed = trim_str(text);
    let lowered = to_lowercase(trimmed.as_str());
    let low = chars_of(lowered.as_str());
    let mut out: Vec<ActionChoice> = Vec::new();
    let mut k: usize = 0;
    while k < lines.len()
        invariant
            k <= lines.len(),
            lv == lines_view(lines@),
            low@ == str_lowercase(trim(text@)),
            lines_view(out@) == matching_lines(lv.take(k as int), low@),
        decreases lines.len() - k,
    {
        let l = &lines[k];
        assert(lv.take(k + 1).drop_last() =~= lv.take(k as int));
        assert(lv.take(k + 1).last() == line_view(*l));
        let name = chars_of(l.name.as_str());
        let summary = to_lowercase(l.summary.as_str());
        let summary = chars_of(summary.as_str());
        if contains_chars(&name, &low) || contains_chars(&summary, &low) {
            push_line(&mut out, l.name.as_str(), l.summary.as_str(), l.value.as_str());
        }
        k = k + 1;
    }
    assert(lv.take(lines.len() as int) =~= lv);
    out
}

pub open spec fn app_view(a: AppEntry) -> (Seq<char>, Seq<char>) {
    (a.name@, a.command@)
}

pub open spec fn apps_view(v: Seq<AppEntry>) -> Seq<(Seq<char>, Seq<char>)> {
    v.map_values(|a: AppEntry| app_view(a))
}

/// The installed apps whose lower-cased name or command holds the
/// lower-cased filter, in order.
pub open spec fn matching_apps(apps: Seq<(Seq<char>, Seq<char>)>, lowered: Seq<char>) -> Seq<(Seq<char>, Seq<char>)>
    decreases apps.len(),
{
    if apps.len() == 0 {
        seq![]
    } else if contains_seq(str_lowercase(apps.last().0), lowered) || contains_seq(
        str_lowercase(apps.last().1),
        lowered,
    ) {
        matching_apps(apps.drop_last(), lowered).push(apps.last())
    } else {
        matching_apps(apps.drop_last(), lowered)
    }
}

/// The app picker's matches for the filter text.
pub fn app_matches(apps: &Vec<AppEntry>, text: &str) -> (r: Vec<AppEntry>)
    ensures
        apps_view(r@) == matching_apps(apps_view(apps@), str_lowercase(trim(text@))),
{
    let ghost av = apps_view(apps@);
    let trimmed = trim_str(text);
    let lowered = to_lowercase(trimmed.as_str());
    let low = chars_of(lowered.as_str());
    let mut out: Vec<AppEntry> = Vec::new();
    let mut k: usize = 0;
    while k < apps.len()
        invariant
            k <= apps.len(),
            av == apps_view(apps@),
            low@ == str_lowercase(trim(text@)),
            apps_view(out@) == matching_apps(av.take(k as int), low@),
        decreases apps.len() - k,
    {
        let a = &apps[k];
        assert(av.take(k + 1).drop_last() =~= av.take(k as int));
        assert(av.take(k + 1).last() == app_view(*a));
        let name = to_lowercase(a.name.as_str());
        let name = chars_of(name.as_str());
        let command = to_lowercase(a.command.as_str());
        let command = chars_of(command.as_str());
        if contains_chars(&name, &low) || contains_chars(&command, &low) {
            let ghost before = apps_view(out@);
            let e = AppEntry { name: a.name.clone(), command: a.command.clone() };
            out.push(e);
            assert(apps_view(out@) =~= before.push(app_view(*a)));
        }
        k = k + 1;
    }
    assert(av.take(apps.len() as int) =~= av);
    out
}

/// `str::rsplit_once(c)`: the text before and after the last `c`.
pub open spec fn rsplit_once(s: Seq<char>, c: char) -> Option<(Seq<char>, Seq<char>)> {
    let i = last_index(s, c);
    if i >= 0 {
        Some((s.take(i), s.skip(i + 1)))
    } else {
        None
    }
}

/// The key a chord ends with: the text after its last `+`, or the whole
/// chord.
pub open spec fn spec_last_key(chord: Seq<char>) -> Seq<char> {
    match rsplit_once(chord, '+') {
        Some(p) => p.1,
        None => chord,
    }
}

pub fn last_key(chord: &str) -> (r: String)
    ensures
        r@ == spec_last_key(chord@),
{
    let v = chars_of(chord);
    proof {
        lemma_last_index(v@, '+');
    }
    match last_index_of(&v, '+') {
        Some(i) => string_of(&slice_chars(&v, i + 1, v.len())),
        None => owned(chord),
    }
}

/// The chord after picking a special key: the modifiers typed so far are
/// kept and the key replaced; after a modifier the key is added.
pub open spec fn spec_special_key_chord(chord: Seq<char>, key: Seq<char>, last_is_modifier: bool) -> Seq<char> {
    let head = match rsplit_once(chord, '+') {
        Some(p) => p.0,
        None => Seq::empty(),
    };
    if last_is_modifier {
        chord + "+"@ + key
    } else if head.len() == 0 {
        key
    } else {
        head + "+"@ + key
    }
}

/// `last_is_modifier` says whether the chord's last key is a modifier.
pub fn special_key_chord(chord: &str, key: &str, last_is_modifier: bool) -> (r: String)
    ensures
        r@ == spec_special_key_chord(chord@, key@, last_is_modifier),
{
    let v = chars_of(chord);
    proof {
        lemma_last_index(v@, '+');
    }
    let head = match last_index_of(&v, '+') {
        Some(i) => slice_chars(&v, 0, i),
        None => Vec::new(),
    };
    if last_is_modifier {
        let mut out = v;
        append_str(&mut out, "+");
        append_str(&mut out, key);
        string_of(&out)
    } else if head.len() == 0 {
        owned(key)
    } else {
        let mut out = head;
        append_str(&mut out, "+");
        append_str(&mut out, key);
        string_of(&out)
    }
}

pub open spec fn nonempty_parts(parts: Seq<Seq<char>>) -> Seq<Seq<char>>
    decreases parts.len(),
{
    if parts.len() == 0 {
        seq![]
    } else if parts.last().len() > 0 {
        nonempty_parts(parts.drop_last()).push(parts.last())
    } else {
        nonempty_parts(parts.drop_last())
    }
}

/// The key caps a chord is drawn with: its scope (with a `:`) when it has
/// one, then each key between the `+`s.
pub open spec fn spec_chord_keys(scope: Seq<char>, body: Seq<char>) -> Seq<Seq<char>> {
    (if scope.len() > 0 {
        seq![scope + ":"@]
    } else {
        seq![]
    }) + nonempty_parts(split_char(body, '+'))
}

pub fn chord_keys(scope: &str, body: &str) -> (r: Vec<String>)
    ensures
        string_views(r@) == spec_chord_keys(scope@, body@),
{
    let mut out: Vec<String> = Vec::new();
    if scope.unicode_len() > 0 {
        let mut s = chars_of(scope);
        append_str(&mut s, ":");
        out.push(string_of(&s));
    }
    let ghost head = string_views(out@);
    let b = chars_of(body);
    let parts = split_chars(&b, '+');
    let ghost pv = parts@.map_values(|p: Vec<char>| p@);
    let mut k: usize = 0;
    while k < parts.len()
        invariant
            k <= parts.len(),
            pv == parts@.map_values(|p: Vec<char>| p@),
            string_views(out@) == head + nonempty_parts(pv.take(k as int)),
        decreases parts.len() - k,
    {
        assert(pv.take(k + 1).drop_last() =~= pv.take(k as int));
        assert(pv.take(k + 1).last() == parts@[k as int]@);
        if parts[k].len() > 0 {
            let ghost before = string_views(out@);
            let s = string_of(&parts[k]);
            out.push(s);
            assert(string_views(out@) =~= before.push(s@));
        }
        k = k + 1;
    }
    assert(pv.take(parts.len() as int) =~= pv);
    out
}

/// The special-key menu: a prompt line, then each key by its label, with
/// the key's own name in brackets when the label differs from it.
pub open spec fn special_key_label(key: Seq<char>, label: Seq<char>) -> Seq<char> {
    if key == label {
        label
    } else {
        label + " ("@ + key + ")"@
    }
}

pub open spec fn spec_special_key_labels(choices: Seq<(String, String)>) -> Seq<Seq<char>> {
    seq!["Add a key\u{2026}"@] + choices.map_values(|c: (String, String)| special_key_label(c.0@, c.1@))
}

/// `choices` are the special keys as (key, label).
pub fn special_key_labels(choices: &Vec<(String, String)>) -> (r: Vec<String>)
    ensures
        string_views(r@) == spec_special_key_labels(choices@),
{
    let mut out: Vec<String> = Vec::new();
    out.push(owned("Add a key\u{2026}"));
    let mut k: usize = 0;
    while k < choices.len()
        invariant
            k <= choices.len(),
            string_views(out@) == seq!["Add a key\u{2026}"@] + choices@.take(k as int).map_values(
                |c: (String, String)| special_key_label(c.0@, c.1@),
            ),
        decreases choices.len() - k,
    {
        let (key, label) = (&choices[k].0, &choices[k].1);
        let text = if str_eq(key.as_str(), label.as_str()) {
            label.clone()
        } else {
            let mut v = chars_of(label.as_str());
            append_str(&mut v, " (");
            append_str(&mut v, key.as_str());
            append_str(&mut v, ")");
            string_of(&v)
        };
        let ghost before = string_views(out@);
        out.push(text);
        assert(string_views(out@) =~= before.push(text@));
        assert(choices@.take(k + 1).map_values(|c: (String, String)| special_key_label(c.0@, c.1@))
            =~= choices@.take(k as int).map_values(|c: (String, String)| special_key_label(c.0@, c.1@)).push(
            special_key_label(key@, label@),
        ));
        k = k + 1;
    }
    assert(choices@.take(choices.len() as int) =~= choices@);
    out
}

/// `after` is `before` with group `g` folded when it was open and opened
/// when it was folded.
pub open spec fn toggled(before: Seq<Seq<char>>, after: Seq<Seq<char>>, g: Seq<char>) -> bool {
    forall|s: Seq<char>| #[trigger] after.contains(s) <==> if s == g {
        !before.contains(s)
    } else {
        before.contains(s)
    }
}

/// Clicking a group's header twice leaves the folded groups as they were.
pub proof fn lemma_toggle_twice(a: Seq<Seq<char>>, b: Seq<Seq<char>>, c: Seq<Seq<char>>, g: Seq<char>)
    requires
        toggled(a, b, g),
        toggled(b, c, g),
    ensures
        forall|s: Seq<char>| #[trigger] c.contains(s) <==> a.contains(s),
{
    assert forall|s: Seq<char>| #[trigger] c.contains(s) <==> a.contains(s) by {
        assert(c.contains(s) <==> if s == g { !b.contains(s) } else { b.contains(s) });
        assert(b.contains(s) <==> if s == g { !a.contains(s) } else { a.contains(s) });
    }
}

pub open spec fn upper_names(groups: Seq<String>) -> Seq<Seq<char>> {
    groups.map_values(|g: String| str_uppercase(g@))
}

/// A group header was clicked: the headers show the group upper-cased, so
/// the group is found by that; it folds when open and opens when folded.
/// A title that names no group changes nothing.
pub fn toggle_group(collapsed: &mut Vec<String>, groups: &Vec<String>, title: &str)
    requires
        string_views(old(collapsed)@).no_duplicates(),
    ensures
        string_views(final(collapsed)@).no_duplicates(),
        match label_index(upper_names(groups@), title@) {
            None => string_views(final(collapsed)@) == string_views(old(collapsed)@),
            Some(i) => toggled(string_views(old(collapsed)@), string_views(final(collapsed)@), groups@[i]@),
        },
{
    let mut uppers: Vec<String> = Vec::new();
    let mut k: usize = 0;
    while k < groups.len()
        invariant
            k <= groups.len(),
            string_views(uppers@) == upper_names(groups@).take(k as int),
        decreases groups.len() - k,
    {
        let ghost before = string_views(uppers@);
        let u = to_uppercase(groups[k].as_str());
        uppers.push(u);
        assert(string_views(uppers@) =~= before.push(u@));
        assert(upper_names(groups@).take(k + 1) =~= upper_names(groups@).take(k as int).push(str_uppercase(groups@[k as int]@)));
        k = k + 1;
    }
    assert(upper_names(groups@).take(groups.len() as int) =~= upper_names(groups@));
    let found = label_position(&uppers, title);
    proof {
        lemma_label_index_in_range(upper_names(groups@), title@);
    }
    let i = match found {
        Some(i) => i,
        None => return,
    };
    let group = &groups[i];
    let ghost old_v = string_views(collapsed@);
    match label_position(collapsed, group.as_str()) {
        Some(p) => {
            proof {
                lemma_label_index_in_range(old_v, group@);
            }
            collapsed.remove(p);
            proof {
                let new_v = string_views(collapsed@);
                assert(new_v =~= old_v.remove(p as int));
                assert forall|s: Seq<char>| #[trigger] new_v.contains(s) <==> if s == group@ {
                    !old_v.contains(s)
                } else {
                    old_v.contains(s)
                } by {
                    if new_v.contains(s) {
                        let j = choose|j: int| 0 <= j < new_v.len() && new_v[j] == s;
                        if j < p {
                            assert(new_v[j] == old_v[j]);
                        } else {
                            assert(new_v[j] == old_v[j + 1]);
                        }
                    }
                    if s != group@ && old_v.contains(s) {
                        let j = choose|j: int| 0 <= j < old_v.len() && old_v[j] == s;
                        if j < p {
                            assert(new_v[j] == s);
                        } else {
                            assert(j != p);
                            assert(new_v[j - 1] == s);
                        }
                    }
                }
                assert forall|a: int, b: int| 0 <= a < new_v.len() && 0 <= b < new_v.len() && a != b implies new_v[a] != new_v[b] by {
                    let oa = if a < p { a } else { a + 1 };
                    let ob = if b < p { b } else { b + 1 };
                    assert(new_v[a] == old_v[oa] && new_v[b] == old_v[ob]);
                }
            }
        },
        None => {
            proof {
                if old_v.contains(group@) {
                    let j = choose|j: int| 0 <= j < old_v.len() && old_v[j] == group@;
                    lemma_label_index_found(old_v, group@, j);
                }
            }
            let ghost before = string_views(collapsed@);
            collapsed.push(group.clone());
            proof {
                let new_v = string_views(collapsed@);
                assert(new_v =~= before.push(group@));
                assert forall|s: Seq<char>| #[trigger] new_v.contains(s) <==> if s == group@ {
                    !old_v.contains(s)
                } else {
                    old_v.contains(s)
                } by {
                    if new_v.contains(s) && s != group@ {
                        let j = choose|j: int| 0 <= j < new_v.len() && new_v[j] == s;
                        assert(j < old_v.len());
                        assert(old_v[j] == s);
                    }
                    if s == group@ {
                        assert(new_v[old_v.len() as int] == s);
                    }
                    if old_v.contains(s) {
                        let j = choose|j: int| 0 <= j < old_v.len() && old_v[j] == s;
                        assert(new_v[j] == s);
                    }
                }
                assert forall|a: int, b: int| 0 <= a < new_v.len() && 0 <= b < new_v.len() && a != b implies new_v[a] != new_v[b] by {
                    if a < old_v.len() && b < old_v.len() {
                        assert(new_v[a] == old_v[a] && new_v[b] == old_v[b]);
                    } else if a < old_v.len() {
                        assert(new_v[a] == old_v[a]);
                        assert(old_v.contains(old_v[a]));
                    } else if b < old_v.len() {
                        assert(new_v[b] == old_v[b]);
                        assert(old_v.contains(old_v[b]));
                    }
                }
            }
        },
    }
}


/// A bind applied from the editor opens the editor again on the same
/// action and its trimmed parameter, when the action's name holds no `:`.
pub proof fn lemma_applied_draft_reopens(d: DraftFields, b: BindDraft)
    requires
        draft_error(d) is None,
        draft_bind_matches(b, d),
        !d.action@.contains(':'),
    ensures
        split_action(b.action@) == (d.action@, trim(d.param@)),
{
    let a = d.action@;
    let p = trim(d.param@);
    if p.len() == 0 {
        assert forall|k: int| 0 <= k < a.len() implies #[trigger] a[k] != ':' by {
            if a[k] == ':' {
                assert(a.contains(':'));
            }
        }
        lemma_before_char_unique(a, ':', a.len() as int);
        assert(p =~= Seq::<char>::empty());
    } else {
        let s = a + ":"@ + p;
        assert(b.action@ == s);
        reveal_strlit(":");
        assert forall|k: int| 0 <= k < a.len() implies #[trigger] s[k] != ':' by {
            assert(s[k] == a[k]);
            if a[k] == ':' {
                assert(a.contains(':'));
            }
        }
        assert(s[a.len() as int] == ':');
        lemma_before_char_unique(s, ':', a.len() as int);
        assert(s.take(a.len() as int) =~= a);
        assert(s.skip(a.len() as int + 1) =~= p);
    }
}

proof fn lemma_last_plus_of_join(x: Seq<char>, key: Seq<char>)
    requires
        !key.contains('+'),
    ensures
        last_index(x + "+"@ + key, '+') == x.len(),
{
    reveal_strlit("+");
    let s = x + "+"@ + key;
    lemma_last_index(s, '+');
    let li = last_index(s, '+');
    let p = x.len() as int;
    assert(s[p] == '+');
    if li > p {
        assert(s[li] == key[li - p - 1]);
        assert(key.contains('+'));
    }
}

proof fn lemma_no_plus(key: Seq<char>)
    requires
        !key.contains('+'),
    ensures
        last_index(key, '+') == -1,
{
    lemma_last_index(key, '+');
    if last_index(key, '+') >= 0 {
        assert(key[last_index(key, '+')] == '+');
        assert(key.contains('+'));
    }
}

/// A special key picked into a chord becomes the chord's last key.
pub proof fn lemma_picked_key_is_last(chord: Seq<char>, key: Seq<char>, last_is_modifier: bool)
    requires
        !key.contains('+'),
    ensures
        spec_last_key(spec_special_key_chord(chord, key, last_is_modifier)) == key,
{
    reveal_strlit("+");
    let head = match rsplit_once(chord, '+') {
        Some(p) => p.0,
        None => Seq::empty(),
    };
    if last_is_modifier {
        lemma_last_plus_of_join(chord, key);
        assert((chord + "+"@ + key).skip(chord.len() as int + 1) =~= key);
    } else if head.len() == 0 {
        lemma_no_plus(key);
    } else {
        lemma_last_plus_of_join(head, key);
        assert((head + "+"@ + key).skip(head.len() as int + 1) =~= key);
    }
}

} // verus!

//! First-run onboarding: which startup state the app is in, the guided
//! setup's steps and suggested values, its rows, its navigation, the
//! heading of each step, and its notes.

use vstd::prelude::*;

use crate::common::KeySet;
use crate::text::{label_index, label_position, lemma_label_index_found};
use crate::text::{
    append_chars, append_str, capitalize, capitalize_chars, chars_of, decimal, decimal_chars, owned,
    str_eq, string_of, string_views,
};

verus! {

/// The four startup states: only the plain install gets the first-run
/// panel; a configured machine without umbriel gets the quiet banner.
#[derive(Debug, PartialEq, Eq, Clone, Copy, Structural)]
pub enum SetupMode {
    Normal,
    FreshWithUmbriel,
    PlainInstall,
    MissingUmbriel,
}

/// "Umbriel present" is the packaged default being installed; "config
/// exists" is the main config file being on disk.
pub fn setup_mode(umbriel_present: bool, config_exists: bool) -> (m: SetupMode)
    ensures
        m == (if umbriel_present && config_exists {
            SetupMode::Normal
        } else if umbriel_present {
            SetupMode::FreshWithUmbriel
        } else if config_exists {
            SetupMode::MissingUmbriel
        } else {
            SetupMode::PlainInstall
        }),
{
    match (umbriel_present, config_exists) {
        (true, true) => SetupMode::Normal,
        (true, false) => SetupMode::FreshWithUmbriel,
        (false, true) => SetupMode::MissingUmbriel,
        (false, false) => SetupMode::PlainInstall,
    }
}

impl SetupMode {
    /// Only a machine without a config gets the first-run panel.
    pub fn shows_onboarding(&self) -> (r: bool)
        ensures
            r == (*self == SetupMode::PlainInstall || *self == SetupMode::FreshWithUmbriel),
    {
        match self {
            SetupMode::PlainInstall | SetupMode::FreshWithUmbriel => true,
            _ => false,
        }
    }

    /// What's new is shown where an update makes sense: a fresh install
    /// has nothing new yet.
    pub fn offers_whats_new(&self) -> (r: bool)
        ensures
            r == (*self == SetupMode::Normal || *self == SetupMode::MissingUmbriel),
    {
        match self {
            SetupMode::Normal | SetupMode::MissingUmbriel => true,
            _ => false,
        }
    }
}

/// The name a step's section shows under.
pub open spec fn step_display(section: Seq<char>) -> Seq<char> {
    if section == "output"@ {
        "outputs"@
    } else {
        capitalize(section)
    }
}

/// Card heading for one guided-setup step.
pub open spec fn spec_guide_title(section: Seq<char>, step: nat, total: nat) -> Seq<char> {
    "Guided setup — "@ + step_display(section) + " (step "@ + decimal(step) + " of "@
        + decimal(total) + ")"@
}

pub fn guide_title(section: &str, step: usize, total: usize) -> (r: String)
    ensures
        r@ == spec_guide_title(section@, step as nat, total as nat),
{
    let display = if str_eq(section, "output") {
        chars_of("outputs")
    } else {
        let mut owned = chars_of(section);
        capitalize_chars(&mut owned);
        owned
    };
    let mut out: Vec<char> = Vec::new();
    append_str(&mut out, "Guided setup — ");
    append_chars(&mut out, &display);
    append_str(&mut out, " (step ");
    let step_digits = decimal_chars(step as u64);
    append_chars(&mut out, &step_digits);
    append_str(&mut out, " of ");
    let total_digits = decimal_chars(total as u64);
    append_chars(&mut out, &total_digits);
    append_str(&mut out, ")");
    string_of(&out)
}

/// One curated setting of the guided setup: its dotted key, a plain label
/// and a one-line description (the guide speaks human, not config-file).
#[derive(Clone, Copy)]
pub struct GuideKey {
    pub key: &'static str,
    pub label: &'static str,
    pub description: &'static str,
}

pub open spec fn key_view(k: GuideKey) -> (Seq<char>, Seq<char>, Seq<char>) {
    (k.key@, k.label@, k.description@)
}

pub open spec fn keys_view(v: Seq<GuideKey>) -> Seq<(Seq<char>, Seq<char>, Seq<char>)> {
    v.map_values(|k: GuideKey| key_view(k))
}

/// The guided setup's steps: a hand-picked handful of the most-wanted
/// settings per card.
pub open spec fn guide_table() -> Seq<(Seq<char>, Seq<(Seq<char>, Seq<char>, Seq<char>)>)> {
    seq![
        ("layout"@, seq![
            ("layout.mode"@, "Layout mode"@, "How windows are arranged, scrolling columns or the classic dwindle / master trees."@),
            ("layout.gap"@, "Gap"@, "Space between windows"@),
            ("layout.scrolling.default_width_fraction"@, "New column width"@, "How much of the screen a new column starts with."@),
        ]),
        ("input"@, seq![
            ("input.keyboard.layout"@, "Keyboard layout"@, "Country layout for your keyboard, e.g. us or de,us."@),
            ("input.keyboard.numlock_toggle"@, "Num Lock on connect"@, "Turn Num Lock on whenever a keyboard connects."@),
            ("input.middle_click_paste"@, "Middle-click paste"@, "Paste the selected text with a middle click."@),
            ("input.touchpad.tap"@, "Tap to click"@, "Tapping the touchpad counts as a click."@),
            ("input.cursor.size"@, "Cursor size"@, "Mouse cursor size."@),
        ]),
        ("general"@, seq![
            ("general.xwayland"@, "XWayland"@, "Run X11 apps through xwayland-satellite. Changing this needs a fresh Umbriel session."@),
            ("general.show_cheatsheet"@, "Cheat sheet at start"@, "Show the keybind overlay when the session starts."@),
            ("general.focus_on_activate"@, "Let apps take focus"@, "Allow newly opened apps to demand focus."@),
            ("general.autostart"@, "Autostart commands"@, "Commands run once when the session starts."@),
        ]),
        ("appearance"@, seq![
            ("appearance.border_width"@, "Border width"@, "Thickness of the window border, in logical pixels."@),
            ("appearance.corner_radius"@, "Corner radius"@, "How rounded the window corners are."@),
            ("appearance.blur.radius"@, "Blur radius"@, "How far the blur spreads behind windows."@),
            ("appearance.blur.passes"@, "Blur passes"@, "How many times the blur is applied, more is smoother."@),
            ("colors.border.focused"@, "Focused border color"@, "Border color of the focused window, as hex (e.g. #7AA3FFFF)."@),
        ]),
    ]
}

pub struct GuideStep {
    pub title: &'static str,
    pub keys: Vec<GuideKey>,
}

pub open spec fn step_view(s: GuideStep) -> (Seq<char>, Seq<(Seq<char>, Seq<char>, Seq<char>)>) {
    (s.title@, keys_view(s.keys@))
}

pub open spec fn steps_view(v: Seq<GuideStep>) -> Seq<(Seq<char>, Seq<(Seq<char>, Seq<char>, Seq<char>)>)> {
    v.map_values(|s: GuideStep| step_view(s))
}

fn guide_key(key: &'static str, label: &'static str, description: &'static str) -> (k: GuideKey)
    ensures
        key_view(k) == (key@, label@, description@),
{
    GuideKey { key, label, description }
}

/// The curated steps, in visit order.
#[verifier::rlimit(40)]
pub fn guide_steps() -> (r: Vec<GuideStep>)
    ensures
        steps_view(r@) == guide_table(),
{
    let mut out: Vec<GuideStep> = Vec::new();
    let keys = vec![
        guide_key("layout.mode", "Layout mode", "How windows are arranged, scrolling columns or the classic dwindle / master trees."),
        guide_key("layout.gap", "Gap", "Space between windows"),
        guide_key("layout.scrolling.default_width_fraction", "New column width", "How much of the screen a new column starts with."),
    ];
    assert(keys_view(keys@) =~= guide_table()[0].1);
    out.push(GuideStep { title: "layout", keys });
    let keys = vec![
        guide_key("input.keyboard.layout", "Keyboard layout", "Country layout for your keyboard, e.g. us or de,us."),
        guide_key("input.keyboard.numlock_toggle", "Num Lock on connect", "Turn Num Lock on whenever a keyboard connects."),
        guide_key("input.middle_click_paste", "Middle-click paste", "Paste the selected text with a middle click."),
        guide_key("input.touchpad.tap", "Tap to click", "Tapping the touchpad counts as a click."),
        guide_key("input.cursor.size", "Cursor size", "Mouse cursor size."),
    ];
    assert(keys_view(keys@) =~= guide_table()[1].1);
    out.push(GuideStep { title: "input", keys });
    let keys = vec![
        guide_key("general.xwayland", "XWayland", "Run X11 apps through xwayland-satellite. Changing this needs a fresh Umbriel session."),
        guide_key("general.show_cheatsheet", "Cheat sheet at start", "Show the keybind overlay when the session starts."),
        guide_key("general.focus_on_activate", "Let apps take focus", "Allow newly opened apps to demand focus."),
        guide_key("general.autostart", "Autostart commands", "Commands run once when the session starts."),
    ];
    assert(keys_view(keys@) =~= guide_table()[2].1);
    out.push(GuideStep { title: "general", keys });
    let keys = vec![
        guide_key("appearance.border_width", "Border width", "Thickness of the window border, in logical pixels."),
        guide_key("appearance.corner_radius", "Corner radius", "How rounded the window corners are."),
        guide_key("appearance.blur.radius", "Blur radius", "How far the blur spreads behind windows."),
        guide_key("appearance.blur.passes", "Blur passes", "How many times the blur is applied, more is smoother."),
        guide_key("colors.border.focused", "Focused border color", "Border color of the focused window, as hex (e.g. #7AA3FFFF)."),
    ];
    assert(keys_view(keys@) =~= guide_table()[3].1);
    out.push(GuideStep { title: "appearance", keys });
    assert(steps_view(out@) =~= guide_table());
    out
}

/// The suggestion of the first schema entry with this dotted key (`schema`
/// holds each entry's key and, when it has a default that commits, the
/// value text it suggests); `None` when the schema lacks the key.
pub open spec fn schema_entry(schema: Seq<(Seq<char>, Option<Seq<char>>)>, key: Seq<char>) -> Option<Option<Seq<char>>>
    decreases schema.len(),
{
    if schema.len() == 0 {
        None
    } else if schema[0].0 == key {
        Some(schema[0].1)
    } else {
        schema_entry(schema.drop_first(), key)
    }
}

/// The curated keys this umbriel's schema has, in order.
pub open spec fn present_keys(
    keys: Seq<(Seq<char>, Seq<char>, Seq<char>)>,
    schema: Seq<(Seq<char>, Option<Seq<char>>)>,
) -> Seq<(Seq<char>, Seq<char>, Seq<char>)>
    decreases keys.len(),
{
    if keys.len() == 0 {
        seq![]
    } else if schema_entry(schema, keys.last().0) is Some {
        present_keys(keys.drop_last(), schema).push(keys.last())
    } else {
        present_keys(keys.drop_last(), schema)
    }
}

/// The suggested values a step fills in: for each curated key the schema
/// has, that the main config does not set yet, and whose default commits.
pub open spec fn step_fills(
    keys: Seq<(Seq<char>, Seq<char>, Seq<char>)>,
    schema: Seq<(Seq<char>, Option<Seq<char>>)>,
    current: Set<Seq<char>>,
) -> Seq<(Seq<char>, Seq<char>)>
    decreases keys.len(),
{
    if keys.len() == 0 {
        seq![]
    } else {
        let before = step_fills(keys.drop_last(), schema, current);
        let k = keys.last().0;
        match schema_entry(schema, k) {
            Some(Some(v)) => if current.contains(k) { before } else { before.push((k, v)) },
            _ => before,
        }
    }
}

/// The steps with at least one key in the schema.
pub open spec fn plan_steps(
    table: Seq<(Seq<char>, Seq<(Seq<char>, Seq<char>, Seq<char>)>)>,
    schema: Seq<(Seq<char>, Option<Seq<char>>)>,
) -> Seq<(Seq<char>, Seq<(Seq<char>, Seq<char>, Seq<char>)>)>
    decreases table.len(),
{
    if table.len() == 0 {
        seq![]
    } else if present_keys(table.last().1, schema).len() > 0 {
        plan_steps(table.drop_last(), schema).push((table.last().0, present_keys(table.last().1, schema)))
    } else {
        plan_steps(table.drop_last(), schema)
    }
}

pub open spec fn plan_fills(
    table: Seq<(Seq<char>, Seq<(Seq<char>, Seq<char>, Seq<char>)>)>,
    schema: Seq<(Seq<char>, Option<Seq<char>>)>,
    current: Set<Seq<char>>,
) -> Seq<(Seq<char>, Seq<char>)>
    decreases table.len(),
{
    if table.len() == 0 {
        seq![]
    } else {
        plan_fills(table.drop_last(), schema, current) + step_fills(table.last().1, schema, current)
    }
}

/// The walk: an outputs step first when monitors are detected, then each
/// curated step with keys in the schema; `None` when that leaves nothing
/// (no umbriel schema, no monitors).
pub open spec fn spec_guide_steps(schema: Seq<(Seq<char>, Option<Seq<char>>)>, monitors: nat) -> Seq<(Seq<char>, Seq<(Seq<char>, Seq<char>, Seq<char>)>)> {
    (if monitors > 0 { seq![("output"@, seq![])] } else { seq![] }) + plan_steps(guide_table(), schema)
}

/// What arming the guided walk decides: its steps, and the suggested
/// values to fill into the main config (values already set are never
/// replaced).
pub struct GuidePlan {
    pub steps: Vec<GuideStep>,
    pub fills: Vec<(String, String)>,
}

pub open spec fn fills_view(v: Seq<(String, String)>) -> Seq<(Seq<char>, Seq<char>)> {
    v.map_values(|f: (String, String)| (f.0@, f.1@))
}

pub open spec fn schema_view(v: Seq<(String, Option<String>)>) -> Seq<(Seq<char>, Option<Seq<char>>)> {
    v.map_values(|e: (String, Option<String>)| (e.0@, match e.1 { Some(s) => Some(s@), None => None }))
}

fn find_entry(schema: &Vec<(String, Option<String>)>, key: &str) -> (r: Option<usize>)
    ensures
        match r {
            Some(i) => i < schema.len() && schema_entry(schema_view(schema@), key@) == Some(schema_view(schema@)[i as int].1),
            None => schema_entry(schema_view(schema@), key@) is None,
        },
{
    let ghost all = schema_view(schema@);
    let mut i: usize = 0;
    assert(all.skip(0) =~= all);
    while i < schema.len()
        invariant
            i <= schema.len(),
            all == schema_view(schema@),
            schema_entry(all, key@) == schema_entry(all.skip(i as int), key@),
        decreases schema.len() - i,
    {
        assert(all.skip(i as int).drop_first() =~= all.skip(i + 1));
        assert(all.skip(i as int)[0] == all[i as int]);
        assert(all[i as int].0 == schema@[i as int].0@);
        if str_eq(schema[i].0.as_str(), key) {
            return Some(i);
        }
        i = i + 1;
    }
    assert(all.skip(schema.len() as int) =~= Seq::<(Seq<char>, Option<Seq<char>>)>::empty());
    None
}

/// Arm the guided walk: the steps to visit and the suggestions to fill in.
pub fn guide_plan(schema: &Vec<(String, Option<String>)>, current: &KeySet, monitors: usize) -> (r: Option<GuidePlan>)
    ensures
        spec_guide_steps(schema_view(schema@), monitors as nat).len() == 0 ==> r is None,
        spec_guide_steps(schema_view(schema@), monitors as nat).len() > 0 ==> (r matches Some(p) && steps_view(p.steps@)
            == spec_guide_steps(schema_view(schema@), monitors as nat) && fills_view(p.fills@) == plan_fills(
            guide_table(),
            schema_view(schema@),
            current@,
        )),
{
    let ghost sv = schema_view(schema@);
    let table = guide_steps();
    let ghost tv = steps_view(table@);
    let mut steps: Vec<GuideStep> = Vec::new();
    if monitors > 0 {
        let none: Vec<GuideKey> = Vec::new();
        assert(keys_view(none@) =~= Seq::<(Seq<char>, Seq<char>, Seq<char>)>::empty());
        steps.push(GuideStep { title: "output", keys: none });
        assert(steps_view(steps@) =~= seq![("output"@, Seq::<(Seq<char>, Seq<char>, Seq<char>)>::empty())]);
    }
    let ghost lead = steps_view(steps@);
    let mut fills: Vec<(String, String)> = Vec::new();
    let mut t: usize = 0;
    assert(tv.take(0) =~= Seq::<(Seq<char>, Seq<(Seq<char>, Seq<char>, Seq<char>)>)>::empty());
    while t < table.len()
        invariant
            t <= table.len(),
            tv == steps_view(table@),
            tv == guide_table(),
            sv == schema_view(schema@),
            steps_view(steps@) == lead + plan_steps(tv.take(t as int), sv),
            fills_view(fills@) == plan_fills(tv.take(t as int), sv, current@),
        decreases table.len() - t,
    {
        assert(tv.take(t + 1).drop_last() =~= tv.take(t as int));
        let step = &table[t];
        assert(tv[t as int] == step_view(*step));
        let ghost kv = keys_view(step.keys@);
        let mut present: Vec<GuideKey> = Vec::new();
        let ghost fills_before = fills_view(fills@);
        let mut k: usize = 0;
        assert(kv.take(0) =~= Seq::<(Seq<char>, Seq<char>, Seq<char>)>::empty());
        while k < step.keys.len()
            invariant
                k <= step.keys.len(),
                kv == keys_view(step.keys@),
                sv == schema_view(schema@),
                keys_view(present@) == present_keys(kv.take(k as int), sv),
                fills_view(fills@) == fills_before + step_fills(kv.take(k as int), sv, current@),
            decreases step.keys.len() - k,
        {
            assert(kv.take(k + 1).drop_last() =~= kv.take(k as int));
            let key = step.keys[k];
            assert(kv[k as int] == key_view(key));
            match find_entry(schema, key.key) {
                Some(i) => {
                    let ghost prev = keys_view(present@);
                    present.push(key);
                    assert(keys_view(present@) =~= prev.push(key_view(key)));
                    if !current.contains(key.key) {
                        match &schema[i].1 {
                            Some(v) => {
                                let ghost fprev = fills_view(fills@);
                                fills.push((crate::text::owned(key.key), v.clone()));
                                assert(fills_view(fills@) =~= fprev.push((key.key@, v@)));
                            },
                            None => {},
                        }
                    }
                },
                None => {},
            }
            k = k + 1;
        }
        assert(kv.take(step.keys.len() as int) =~= kv);
        if present.len() > 0 {
            let ghost prev = steps_view(steps@);
            let ghost pv = keys_view(present@);
            steps.push(GuideStep { title: step.title, keys: present });
            assert(steps_view(steps@) =~= prev.push((tv[t as int].0, pv)));
        }
        t = t + 1;
    }
    assert(tv.take(table.len() as int) =~= tv);
    if steps.len() == 0 {
        return None;
    }
    Some(GuidePlan { steps, fills })
}

proof fn lemma_step_fills_unset(
    keys: Seq<(Seq<char>, Seq<char>, Seq<char>)>,
    schema: Seq<(Seq<char>, Option<Seq<char>>)>,
    current: Set<Seq<char>>,
)
    ensures
        forall|i: int| 0 <= i < step_fills(keys, schema, current).len() ==> !current.contains(
            #[trigger] step_fills(keys, schema, current)[i].0,
        ),
    decreases keys.len(),
{
    if keys.len() > 0 {
        lemma_step_fills_unset(keys.drop_last(), schema, current);
        let before = step_fills(keys.drop_last(), schema, current);
        assert forall|i: int| 0 <= i < step_fills(keys, schema, current).len() implies !current.contains(
            #[trigger] step_fills(keys, schema, current)[i].0,
        ) by {
            if i < before.len() {
                assert(step_fills(keys, schema, current)[i] == before[i]);
            }
        }
    }
}

/// The guided setup never overwrites a value: every suggestion it fills
/// in is for a key the main config does not set yet.
pub proof fn lemma_fills_never_clobber(
    table: Seq<(Seq<char>, Seq<(Seq<char>, Seq<char>, Seq<char>)>)>,
    schema: Seq<(Seq<char>, Option<Seq<char>>)>,
    current: Set<Seq<char>>,
)
    ensures
        forall|i: int| 0 <= i < plan_fills(table, schema, current).len() ==> !current.contains(
            #[trigger] plan_fills(table, schema, current)[i].0,
        ),
    decreases table.len(),
{
    if table.len() > 0 {
        lemma_fills_never_clobber(table.drop_last(), schema, current);
        lemma_step_fills_unset(table.last().1, schema, current);
        let before = plan_fills(table.drop_last(), schema, current);
        let last = step_fills(table.last().1, schema, current);
        assert forall|i: int| 0 <= i < plan_fills(table, schema, current).len() implies !current.contains(
            #[trigger] plan_fills(table, schema, current)[i].0,
        ) by {
            if i < before.len() {
                assert(plan_fills(table, schema, current)[i] == before[i]);
            } else {
                assert(plan_fills(table, schema, current)[i] == last[i - before.len()]);
            }
        }
    }
}

proof fn lemma_present_in_schema(keys: Seq<(Seq<char>, Seq<char>, Seq<char>)>, schema: Seq<(Seq<char>, Option<Seq<char>>)>)
    ensures
        forall|i: int| 0 <= i < present_keys(keys, schema).len() ==> schema_entry(
            schema,
            #[trigger] present_keys(keys, schema)[i].0,
        ) is Some,
    decreases keys.len(),
{
    if keys.len() > 0 {
        lemma_present_in_schema(keys.drop_last(), schema);
        let before = present_keys(keys.drop_last(), schema);
        assert forall|i: int| 0 <= i < present_keys(keys, schema).len() implies schema_entry(
            schema,
            #[trigger] present_keys(keys, schema)[i].0,
        ) is Some by {
            if i < before.len() {
                assert(present_keys(keys, schema)[i] == before[i]);
            }
        }
    }
}

/// Every key a step shows is one the installed schema has: keys missing
/// from it are skipped.
pub proof fn lemma_steps_show_schema_keys(
    table: Seq<(Seq<char>, Seq<(Seq<char>, Seq<char>, Seq<char>)>)>,
    schema: Seq<(Seq<char>, Option<Seq<char>>)>,
)
    ensures
        forall|s: int, i: int| 0 <= s < plan_steps(table, schema).len() && 0 <= i < plan_steps(table, schema)[s].1.len()
            ==> schema_entry(schema, #[trigger] plan_steps(table, schema)[s].1[i].0) is Some,
    decreases table.len(),
{
    if table.len() > 0 {
        lemma_steps_show_schema_keys(table.drop_last(), schema);
        lemma_present_in_schema(table.last().1, schema);
        let before = plan_steps(table.drop_last(), schema);
        assert forall|s: int, i: int| 0 <= s < plan_steps(table, schema).len() && 0 <= i < plan_steps(table, schema)[s].1.len()
            implies schema_entry(schema, #[trigger] plan_steps(table, schema)[s].1[i].0) is Some by {
            if s < before.len() {
                assert(plan_steps(table, schema)[s] == before[s]);
            }
        }
    }
}

/// The guide steps back one step, unless it is on the first.
pub fn guide_back(index: usize) -> (r: Option<usize>)
    ensures
        index == 0 ==> r is None,
        index > 0 ==> r == Some((index - 1) as usize),
{
    if index == 0 {
        None
    } else {
        Some(index - 1)
    }
}

/// The guide steps forward; past the last step the walk finishes (the
/// second value says whether a step is still to show).
pub fn guide_next(index: usize, steps: usize) -> (r: (usize, bool))
    requires
        index < steps,
    ensures
        r.0 == index + 1,
        r.1 == (index + 1 < steps),
{
    (index + 1, index + 1 < steps)
}

/// A row of a guided-setup step: the schema entry it edits, with the
/// guide's own label and description in place of the mined ones.
pub struct GuideRow {
    pub schema_index: usize,
    pub label: &'static str,
    pub hint: &'static str,
}

pub open spec fn guide_row_view(r: GuideRow) -> (int, Seq<char>, Seq<char>) {
    (r.schema_index as int, r.label@, r.hint@)
}

pub open spec fn meta_keys(metas: Seq<GuideKey>) -> Seq<Seq<char>> {
    metas.map_values(|m: GuideKey| m.key@)
}

/// The rows of the first `n` keys of a step: each key the schema has, in
/// the step's order, at its first schema entry, labelled by the step's
/// first entry for that key; keys this umbriel's schema lacks are skipped.
pub open spec fn guide_rows_upto(metas: Seq<GuideKey>, schema_keys: Seq<Seq<char>>, n: int) -> Seq<(int, Seq<char>, Seq<char>)>
    decreases n,
{
    if n <= 0 {
        seq![]
    } else {
        let prev = guide_rows_upto(metas, schema_keys, n - 1);
        let key = metas[n - 1].key@;
        match label_index(schema_keys, key) {
            Some(j) => {
                let first = metas[label_index(meta_keys(metas), key)->Some_0];
                prev.push((j, first.label@, first.description@))
            },
            None => prev,
        }
    }
}

/// The rows of one guided-setup step: `metas` are its curated keys,
/// `schema_keys` the dotted key of every schema entry.
pub fn guide_rows(metas: &Vec<GuideKey>, schema_keys: &Vec<String>) -> (r: Vec<GuideRow>)
    ensures
        r@.map_values(|g: GuideRow| guide_row_view(g)) == guide_rows_upto(metas@, string_views(schema_keys@), metas.len() as int),
{
    let mut keys: Vec<String> = Vec::new();
    let mut m: usize = 0;
    while m < metas.len()
        invariant
            m <= metas.len(),
            string_views(keys@) == meta_keys(metas@).take(m as int),
        decreases metas.len() - m,
    {
        let ghost before = string_views(keys@);
        let k = owned(metas[m].key);
        keys.push(k);
        assert(string_views(keys@) =~= before.push(k@));
        assert(meta_keys(metas@).take(m + 1) =~= meta_keys(metas@).take(m as int).push(metas@[m as int].key@));
        m = m + 1;
    }
    assert(meta_keys(metas@).take(metas.len() as int) =~= meta_keys(metas@));
    let mut out: Vec<GuideRow> = Vec::new();
    let mut n: usize = 0;
    while n < metas.len()
        invariant
            n <= metas.len(),
            string_views(keys@) == meta_keys(metas@),
            out@.map_values(|g: GuideRow| guide_row_view(g)) == guide_rows_upto(metas@, string_views(schema_keys@), n as int),
        decreases metas.len() - n,
    {
        let key = metas[n].key;
        if let Some(j) = label_position(schema_keys, key) {
            proof {
                assert(meta_keys(metas@)[n as int] == key@);
                lemma_label_index_found(meta_keys(metas@), key@, n as int);
            }
            let f = match label_position(&keys, key) {
                Some(f) => f,
                None => n,
            };
            let first = &metas[f];
            let row = GuideRow { schema_index: j, label: first.label, hint: first.description };
            let ghost before = out@.map_values(|g: GuideRow| guide_row_view(g));
            out.push(row);
            assert(out@.map_values(|g: GuideRow| guide_row_view(g)) =~= before.push(guide_row_view(row)));
        }
        n = n + 1;
    }
    out
}

/// Why the guided setup cannot be run again now: unsaved edits, or no
/// schema to walk through. `None` when it can.
pub open spec fn spec_relaunch_blocked(dirty: bool, has_steps: bool) -> Option<Seq<char>> {
    if dirty {
        Some("Save or discard your changes before running the guided setup."@)
    } else if !has_steps {
        Some("Nothing to guide through yet \u{2014} install umbriel and sync the schema."@)
    } else {
        None
    }
}

pub fn relaunch_blocked(dirty: bool, has_steps: bool) -> (r: Option<String>)
    ensures
        match r {
            Some(n) => spec_relaunch_blocked(dirty, has_steps) == Some(n@),
            None => spec_relaunch_blocked(dirty, has_steps) is None,
        },
{
    if dirty {
        Some(owned("Save or discard your changes before running the guided setup."))
    } else if !has_steps {
        Some(owned("Nothing to guide through yet \u{2014} install umbriel and sync the schema."))
    } else {
        None
    }
}

/// The status after creating the starter config on the first-run panel.
pub open spec fn spec_created_note(result: Result<(), Seq<char>>) -> Seq<char> {
    match result {
        Ok(()) => "Created config.toml."@,
        Err(e) => "Couldn't create config.toml: "@ + e,
    }
}

pub fn created_note(result: &Result<(), String>) -> (r: String)
    ensures
        r@ == spec_created_note(
            match result {
                Ok(()) => Ok(()),
                Err(e) => Err(e@),
            },
        ),
{
    match result {
        Ok(()) => owned("Created config.toml."),
        Err(e) => {
            let mut v = chars_of("Couldn't create config.toml: ");
            append_str(&mut v, e.as_str());
            string_of(&v)
        },
    }
}

} // verus!

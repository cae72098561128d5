//! Keybind rows: the extras worth showing beside a bind, the command of a
//! spawn bind, and the chord a key event spells.

use vstd::prelude::*;

use crate::text::{
    append_chars, append_str, before_char, chars_eq, chars_of, decimal, decimal_chars, index_of_char,
    has_chars, join, join_chars, owned, slice_chars, str_uppercase, string_of, to_uppercase,
};

verus! {

/// The options of a bind that differ from the defaults.
pub struct BindExtras {
    pub repeat: Option<bool>,
    pub allow_when_locked: Option<bool>,
    pub allow_when_inhibited: Option<bool>,
    pub cooldown_ms: Option<u64>,
    pub submap: Option<String>,
}

pub open spec fn when(b: bool, s: Seq<char>) -> Seq<Seq<char>> {
    if b {
        seq![s]
    } else {
        seq![]
    }
}

/// The extras in display order.
pub open spec fn extras_parts(b: BindExtras) -> Seq<Seq<char>> {
    when(b.repeat == Some(false), "once"@) + when(b.allow_when_locked == Some(true), "works when locked"@)
        + when(b.allow_when_inhibited == Some(true), "works when inhibited"@) + match b.cooldown_ms {
        Some(ms) => seq![decimal(ms as nat) + " ms cooldown"@],
        None => seq![],
    } + when(b.submap is Some, "submap"@)
}

/// Non-default extras worth showing on a row, joined with `" · "`.
pub fn keybind_extras(bind: &BindExtras) -> (r: String)
    ensures
        r@ == join(extras_parts(*bind), " · "@),
{
    let mut parts: Vec<Vec<char>> = Vec::new();
    let ghost want = extras_parts(*bind);
    if bind.repeat == Some(false) {
        parts.push(chars_of("once"));
    }
    if bind.allow_when_locked == Some(true) {
        parts.push(chars_of("works when locked"));
    }
    if bind.allow_when_inhibited == Some(true) {
        parts.push(chars_of("works when inhibited"));
    }
    if let Some(ms) = bind.cooldown_ms {
        let mut c = decimal_chars(ms);
        append_str(&mut c, " ms cooldown");
        parts.push(c);
    }
    if bind.submap.is_some() {
        parts.push(chars_of("submap"));
    }
    assert(parts@.map_values(|p: Vec<char>| p@) =~= want);
    let joined = join_chars(&parts, " · ");
    string_of(&joined)
}

/// The command of a `spawn:` action: the text after the first `:` when
/// the text before it is `spawn`.
pub open spec fn spec_spawn_command(action: Seq<char>) -> Option<Seq<char>> {
    let colon = before_char(action, ':') as int;
    if colon < action.len() && action.take(colon) == "spawn"@ {
        Some(action.skip(colon + 1))
    } else {
        None
    }
}

pub fn spawn_command(action: &str) -> (r: Option<String>)
    ensures
        match r {
            Some(c) => spec_spawn_command(action@) == Some(c@),
            None => spec_spawn_command(action@) is None,
        },
{
    let v = chars_of(action);
    let colon = index_of_char(&v, ':');
    if colon < v.len() {
        let head = slice_chars(&v, 0, colon);
        let spawn = chars_of("spawn");
        if chars_eq(&head, &spawn) {
            let rest = slice_chars(&v, colon + 1, v.len());
            return Some(string_of(&rest));
        }
    }
    None
}

/// `char::is_control`: the general category Cc.
pub open spec fn is_control(c: char) -> bool {
    c <= '\u{1f}' || ('\u{7f}' <= c && c <= '\u{9f}')
}

/// The private-use block the toolkit spells its other named keys with.
pub open spec fn is_private_key(c: char) -> bool {
    '\u{f700}' <= c && c <= '\u{f8ff}'
}

/// Text no chord can spell: a control or private-use character.
pub open spec fn unspellable(text: Seq<char>) -> bool {
    exists|i: int| 0 <= i < text.len() && (is_control(#[trigger] text[i]) || is_private_key(text[i]))
}

/// The modifiers held, in chord order.
pub open spec fn held(meta: bool, ctrl: bool, alt: bool, shift: bool) -> Seq<Seq<char>> {
    when(meta, "Mod"@) + when(ctrl, "Ctrl"@) + when(alt, "Alt"@) + when(shift, "Shift"@)
}

/// A key event of the chord recorder: the key's text and the modifier
/// state.
pub struct KeyEvent {
    pub text: String,
    pub meta: bool,
    pub ctrl: bool,
    pub alt: bool,
    pub shift: bool,
    pub released: bool,
}

/// What the toolkit's key table says of the event's text: the modifier
/// it is (`"Mod"`, `"Ctrl"`, `"Alt"`, `"Shift"`), the chord name of a named
/// key (`"Return"`, `"Left"`, `"F1"`, ...), and the keybind name of its
/// character when the text is a single character.
pub struct KeyNames {
    pub modifier: Option<String>,
    pub named: Option<String>,
    pub single: String,
}

/// The keys a chord names by their own table: the modifiers, and the
/// named keys (editing, arrows, paging, the function keys).
#[derive(Debug, Clone, Copy, PartialEq, Eq, Structural)]
pub enum ChordKey {
    Meta,
    MetaR,
    Control,
    ControlR,
    Alt,
    AltGr,
    Shift,
    ShiftR,
    Return,
    Escape,
    Tab,
    Backspace,
    Delete,
    Insert,
    Space,
    LeftArrow,
    RightArrow,
    UpArrow,
    DownArrow,
    Home,
    End,
    PageUp,
    PageDown,
    F1,
    F2,
    F3,
    F4,
    F5,
    F6,
    F7,
    F8,
    F9,
    F10,
    F11,
    F12,
}

pub open spec fn chars_opt(o: Option<String>) -> Option<Seq<char>> {
    match o {
        Some(s) => Some(s@),
        None => None,
    }
}

/// The modifier a key is, by its chord name; both keys of a pair are
/// the same modifier.
pub open spec fn spec_modifier_name(k: ChordKey) -> Option<Seq<char>> {
    match k {
        ChordKey::Meta => Some("Mod"@),
        ChordKey::MetaR => Some("Mod"@),
        ChordKey::Control => Some("Ctrl"@),
        ChordKey::ControlR => Some("Ctrl"@),
        ChordKey::Alt => Some("Alt"@),
        ChordKey::AltGr => Some("Alt"@),
        ChordKey::Shift => Some("Shift"@),
        ChordKey::ShiftR => Some("Shift"@),
        _ => None,
    }
}

/// The chord name of a named key.
pub open spec fn spec_named_key(k: ChordKey) -> Option<Seq<char>> {
    match k {
        ChordKey::Return => Some("Return"@),
        ChordKey::Escape => Some("Escape"@),
        ChordKey::Tab => Some("Tab"@),
        ChordKey::Backspace => Some("BackSpace"@),
        ChordKey::Delete => Some("Delete"@),
        ChordKey::Insert => Some("Insert"@),
        ChordKey::Space => Some("space"@),
        ChordKey::LeftArrow => Some("Left"@),
        ChordKey::RightArrow => Some("Right"@),
        ChordKey::UpArrow => Some("Up"@),
        ChordKey::DownArrow => Some("Down"@),
        ChordKey::Home => Some("Home"@),
        ChordKey::End => Some("End"@),
        ChordKey::PageUp => Some("Page_Up"@),
        ChordKey::PageDown => Some("Page_Down"@),
        ChordKey::F1 => Some("F1"@),
        ChordKey::F2 => Some("F2"@),
        ChordKey::F3 => Some("F3"@),
        ChordKey::F4 => Some("F4"@),
        ChordKey::F5 => Some("F5"@),
        ChordKey::F6 => Some("F6"@),
        ChordKey::F7 => Some("F7"@),
        ChordKey::F8 => Some("F8"@),
        ChordKey::F9 => Some("F9"@),
        ChordKey::F10 => Some("F10"@),
        ChordKey::F11 => Some("F11"@),
        ChordKey::F12 => Some("F12"@),
        _ => None,
    }
}

pub fn modifier_name(k: ChordKey) -> (r: Option<String>)
    ensures
        chars_opt(r) == spec_modifier_name(k),
{
    match k {
        ChordKey::Meta => Some(owned("Mod")),
        ChordKey::MetaR => Some(owned("Mod")),
        ChordKey::Control => Some(owned("Ctrl")),
        ChordKey::ControlR => Some(owned("Ctrl")),
        ChordKey::Alt => Some(owned("Alt")),
        ChordKey::AltGr => Some(owned("Alt")),
        ChordKey::Shift => Some(owned("Shift")),
        ChordKey::ShiftR => Some(owned("Shift")),
        _ => None,
    }
}

pub fn named_key(k: ChordKey) -> (r: Option<String>)
    ensures
        chars_opt(r) == spec_named_key(k),
{
    match k {
        ChordKey::Return => Some(owned("Return")),
        ChordKey::Escape => Some(owned("Escape")),
        ChordKey::Tab => Some(owned("Tab")),
        ChordKey::Backspace => Some(owned("BackSpace")),
        ChordKey::Delete => Some(owned("Delete")),
        ChordKey::Insert => Some(owned("Insert")),
        ChordKey::Space => Some(owned("space")),
        ChordKey::LeftArrow => Some(owned("Left")),
        ChordKey::RightArrow => Some(owned("Right")),
        ChordKey::UpArrow => Some(owned("Up")),
        ChordKey::DownArrow => Some(owned("Down")),
        ChordKey::Home => Some(owned("Home")),
        ChordKey::End => Some(owned("End")),
        ChordKey::PageUp => Some(owned("Page_Up")),
        ChordKey::PageDown => Some(owned("Page_Down")),
        ChordKey::F1 => Some(owned("F1")),
        ChordKey::F2 => Some(owned("F2")),
        ChordKey::F3 => Some(owned("F3")),
        ChordKey::F4 => Some(owned("F4")),
        ChordKey::F5 => Some(owned("F5")),
        ChordKey::F6 => Some(owned("F6")),
        ChordKey::F7 => Some(owned("F7")),
        ChordKey::F8 => Some(owned("F8")),
        ChordKey::F9 => Some(owned("F9")),
        ChordKey::F10 => Some(owned("F10")),
        ChordKey::F11 => Some(owned("F11")),
        ChordKey::F12 => Some(owned("F12")),
        _ => None,
    }
}

/// The names of an event's key: the modifier or named key it is, where
/// the toolkit reports one of those keys, and the keybind name of its
/// single character.
pub fn key_names(key: Option<ChordKey>, single: &str) -> (r: KeyNames)
    ensures
        chars_opt(r.modifier) == (match key {
            Some(k) => spec_modifier_name(k),
            None => None,
        }),
        chars_opt(r.named) == (match key {
            Some(k) => spec_named_key(k),
            None => None,
        }),
        r.single@ == single@,
{
    match key {
        Some(k) => KeyNames { modifier: modifier_name(k), named: named_key(k), single: owned(single) },
        None => KeyNames { modifier: None, named: None, single: owned(single) },
    }
}

/// The chord an event spells. A modifier pressed alone waits (nothing);
/// released alone it is the chord, with the held modifiers. Any other
/// key counts on press only: a named key by its name, a control or
/// private-use text not at all, a single character by its keybind name,
/// other text in upper case; the held modifiers lead, joined by `+`.
pub open spec fn spec_key_chord(
    text: Seq<char>,
    meta: bool,
    ctrl: bool,
    alt: bool,
    shift: bool,
    released: bool,
    modifier: Option<Seq<char>>,
    named: Option<Seq<char>>,
    single: Seq<char>,
) -> Seq<char> {
    let parts = held(meta, ctrl, alt, shift);
    match modifier {
        Some(m) => if !released {
            seq![]
        } else if parts.contains(m) {
            join(parts, "+"@)
        } else {
            join(parts.push(m), "+"@)
        },
        None => if released || text.len() == 0 {
            seq![]
        } else {
            match named {
                Some(n) => join(parts.push(n), "+"@),
                None => if unspellable(text) {
                    seq![]
                } else if text.len() == 1 {
                    join(parts.push(single), "+"@)
                } else {
                    join(parts.push(str_uppercase(text)), "+"@)
                },
            }
        },
    }
}

pub open spec fn parts_view(v: Seq<Vec<char>>) -> Seq<Seq<char>> {
    v.map_values(|p: Vec<char>| p@)
}

/// Pushes `name` when `held` is set.
fn push_if(parts: &mut Vec<Vec<char>>, held: bool, name: &str)
    ensures
        parts_view(final(parts)@) == parts_view(old(parts)@) + when(held, name@),
{
    if held {
        let v = chars_of(name);
        parts.push(v);
        assert(parts_view(parts@) =~= parts_view(old(parts)@) + when(held, name@));
    } else {
        assert(parts_view(parts@) =~= parts_view(old(parts)@) + when(held, name@));
    }
}

/// Whether the text holds a control or private-use character.
fn has_unspellable(v: &Vec<char>) -> (b: bool)
    ensures
        b == unspellable(v@),
{
    let mut i: usize = 0;
    while i < v.len()
        invariant
            i <= v.len(),
            forall|j: int| 0 <= j < i ==> !(is_control(#[trigger] v@[j]) || is_private_key(v@[j])),
        decreases v.len() - i,
    {
        let c = v[i];
        if c <= '\u{1f}' || ('\u{7f}' <= c && c <= '\u{9f}') || ('\u{f700}' <= c && c <= '\u{f8ff}') {
            return true;
        }
        i = i + 1;
    }
    false
}

/// The chord a key event spells, in keybind notation (`"Mod+Shift+Left"`),
/// or nothing when the event completes no chord.
pub fn key_chord(event: &KeyEvent, names: &KeyNames) -> (r: String)
    ensures
        r@ == spec_key_chord(
            event.text@,
            event.meta,
            event.ctrl,
            event.alt,
            event.shift,
            event.released,
            chars_opt(names.modifier),
            chars_opt(names.named),
            names.single@,
        ),
{
    let mut parts: Vec<Vec<char>> = Vec::new();
    push_if(&mut parts, event.meta, "Mod");
    push_if(&mut parts, event.ctrl, "Ctrl");
    push_if(&mut parts, event.alt, "Alt");
    push_if(&mut parts, event.shift, "Shift");
    assert(parts_view(parts@) =~= held(event.meta, event.ctrl, event.alt, event.shift));
    if let Some(m) = &names.modifier {
        if !event.released {
            return String::new();
        }
        let mv = chars_of(m.as_str());
        if !has_chars(&parts, &mv) {
            let ghost before = parts_view(parts@);
            parts.push(mv);
            assert(parts_view(parts@) =~= before.push(m@));
        }
        let out = join_chars(&parts, "+");
        return string_of(&out);
    }
    let text = chars_of(event.text.as_str());
    if event.released || text.len() == 0 {
        return String::new();
    }
    let key: Vec<char> = match &names.named {
        Some(n) => chars_of(n.as_str()),
        None => {
            if has_unspellable(&text) {
                return String::new();
            }
            if text.len() == 1 {
                chars_of(names.single.as_str())
            } else {
                let up = to_uppercase(event.text.as_str());
                chars_of(up.as_str())
            }
        },
    };
    let ghost before = parts_view(parts@);
    let ghost kv = key@;
    parts.push(key);
    assert(parts_view(parts@) =~= before.push(kv));
    let out = join_chars(&parts, "+");
    string_of(&out)
}

/// The held modifiers as a chord writes them before its key: `Mod+`,
/// `Ctrl+`, `Alt+`, `Shift+`, each exactly when held, in that order.
pub open spec fn modifier_prefix(meta: bool, ctrl: bool, alt: bool, shift: bool) -> Seq<char> {
    (if meta { "Mod"@ + "+"@ } else { seq![] }) + (if ctrl { "Ctrl"@ + "+"@ } else { seq![] }) + (if alt {
        "Alt"@ + "+"@
    } else {
        seq![]
    }) + (if shift { "Shift"@ + "+"@ } else { seq![] })
}

/// Each part followed by the separator.
spec fn with_seps(parts: Seq<Seq<char>>, sep: Seq<char>) -> Seq<char>
    decreases parts.len(),
{
    if parts.len() == 0 {
        seq![]
    } else {
        with_seps(parts.drop_last(), sep) + parts.last() + sep
    }
}

proof fn lemma_join_sep(parts: Seq<Seq<char>>, sep: Seq<char>)
    requires
        parts.len() > 0,
    ensures
        join(parts, sep) + sep == with_seps(parts, sep),
    decreases parts.len(),
{
    if parts.len() > 1 {
        lemma_join_sep(parts.drop_last(), sep);
        assert(join(parts, sep) + sep =~= with_seps(parts, sep));
    } else {
        assert(parts.drop_last() =~= Seq::<Seq<char>>::empty());
        assert(join(parts, sep) == parts[0]);
        assert(with_seps(parts.drop_last(), sep) == Seq::<char>::empty());
        assert(with_seps(parts, sep) == with_seps(parts.drop_last(), sep) + parts[0] + sep);
        assert(join(parts, sep) + sep =~= with_seps(parts, sep));
    }
}

proof fn lemma_join_push(parts: Seq<Seq<char>>, sep: Seq<char>, k: Seq<char>)
    ensures
        join(parts.push(k), sep) == with_seps(parts, sep) + k,
{
    let q = parts.push(k);
    assert(q.drop_last() =~= parts);
    if parts.len() == 0 {
        assert(with_seps(parts, sep) + k =~= k);
    } else {
        lemma_join_sep(parts, sep);
        assert(join(q, sep) == join(parts, sep) + sep + k);
    }
}

proof fn lemma_with_seps_concat(a: Seq<Seq<char>>, b: Seq<Seq<char>>, sep: Seq<char>)
    ensures
        with_seps(a + b, sep) == with_seps(a, sep) + with_seps(b, sep),
    decreases b.len(),
{
    if b.len() == 0 {
        assert(a + b =~= a);
        assert(with_seps(a, sep) + with_seps(b, sep) =~= with_seps(a, sep));
    } else {
        assert((a + b).drop_last() =~= a + b.drop_last());
        lemma_with_seps_concat(a, b.drop_last(), sep);
        assert(with_seps(a + b, sep) =~= with_seps(a, sep) + with_seps(b, sep));
    }
}

proof fn lemma_with_seps_when(b: bool, x: Seq<char>, sep: Seq<char>)
    ensures
        with_seps(when(b, x), sep) == (if b { x + sep } else { seq![] }),
{
    if b {
        assert(when(b, x).drop_last() =~= Seq::<Seq<char>>::empty());
        assert(with_seps(Seq::<Seq<char>>::empty(), sep) + x + sep =~= x + sep);
    }
}

proof fn lemma_held_prefix(meta: bool, ctrl: bool, alt: bool, shift: bool)
    ensures
        with_seps(held(meta, ctrl, alt, shift), "+"@) == modifier_prefix(meta, ctrl, alt, shift),
{
    let m = when(meta, "Mod"@);
    let c = when(ctrl, "Ctrl"@);
    let a = when(alt, "Alt"@);
    let s = when(shift, "Shift"@);
    lemma_with_seps_concat(m + c + a, s, "+"@);
    lemma_with_seps_concat(m + c, a, "+"@);
    lemma_with_seps_concat(m, c, "+"@);
    lemma_with_seps_when(meta, "Mod"@, "+"@);
    lemma_with_seps_when(ctrl, "Ctrl"@, "+"@);
    lemma_with_seps_when(alt, "Alt"@, "+"@);
    lemma_with_seps_when(shift, "Shift"@, "+"@);
}

/// A key other than a modifier, pressed, spells every held modifier
/// (`Mod+`, `Ctrl+`, `Alt+`, `Shift+` in that order, each exactly when
/// held) and then the key's name: its chord name when it is a named key,
/// the keybind name of a single character, else the text in upper case.
pub proof fn law_pressed_key_chord(
    text: Seq<char>,
    meta: bool,
    ctrl: bool,
    alt: bool,
    shift: bool,
    named: Option<Seq<char>>,
    single: Seq<char>,
)
    requires
        text.len() > 0,
        named is Some || !unspellable(text),
    ensures
        spec_key_chord(text, meta, ctrl, alt, shift, false, None, named, single) == modifier_prefix(
            meta,
            ctrl,
            alt,
            shift,
        ) + match named {
            Some(n) => n,
            None => if text.len() == 1 {
                single
            } else {
                str_uppercase(text)
            },
        },
{
    let k = match named {
        Some(n) => n,
        None => if text.len() == 1 {
            single
        } else {
            str_uppercase(text)
        },
    };
    lemma_join_push(held(meta, ctrl, alt, shift), "+"@, k);
    lemma_held_prefix(meta, ctrl, alt, shift);
}

/// Whether the modifier that `m` is, is among the held ones.
pub open spec fn modifier_held(m: ChordKey, meta: bool, ctrl: bool, alt: bool, shift: bool) -> bool {
    match m {
        ChordKey::Meta | ChordKey::MetaR => meta,
        ChordKey::Control | ChordKey::ControlR => ctrl,
        ChordKey::Alt | ChordKey::AltGr => alt,
        _ => shift,
    }
}

proof fn lemma_concat_contains(p: Seq<Seq<char>>, q: Seq<Seq<char>>, x: Seq<char>)
    ensures
        (p + q).contains(x) == (p.contains(x) || q.contains(x)),
{
    if (p + q).contains(x) {
        let i = choose|i: int| 0 <= i < (p + q).len() && (p + q)[i] == x;
        if i < p.len() {
            assert(p[i] == x);
        } else {
            assert(q[i - p.len()] == x);
        }
    }
    if p.contains(x) {
        let i = choose|i: int| 0 <= i < p.len() && p[i] == x;
        assert((p + q)[i] == x);
    }
    if q.contains(x) {
        let i = choose|i: int| 0 <= i < q.len() && q[i] == x;
        assert((p + q)[i + p.len()] == x);
    }
}

proof fn lemma_when_contains(b: bool, y: Seq<char>, x: Seq<char>)
    ensures
        (when(b, y).contains(x)) == (b && x == y),
{
    if b && x == y {
        assert(when(b, y)[0] == x);
    }
}

proof fn lemma_held_contains(meta: bool, ctrl: bool, alt: bool, shift: bool, x: Seq<char>)
    ensures
        held(meta, ctrl, alt, shift).contains(x) == ((meta && x == "Mod"@) || (ctrl && x == "Ctrl"@) || (alt
            && x == "Alt"@) || (shift && x == "Shift"@)),
{
    let m = when(meta, "Mod"@);
    let c = when(ctrl, "Ctrl"@);
    let a = when(alt, "Alt"@);
    let s = when(shift, "Shift"@);
    lemma_concat_contains(m + c + a, s, x);
    lemma_concat_contains(m + c, a, x);
    lemma_concat_contains(m, c, x);
    lemma_when_contains(meta, "Mod"@, x);
    lemma_when_contains(ctrl, "Ctrl"@, x);
    lemma_when_contains(alt, "Alt"@, x);
    lemma_when_contains(shift, "Shift"@, x);
}

/// A modifier key pressed spells nothing yet, and any other key spells
/// nothing on release. A modifier released spells the held modifiers
/// (`Mod`, `Ctrl`, `Alt`, `Shift` in that order, joined by `+`), with its
/// own name after them when it was not among them.
pub proof fn law_modifier_key_chord(
    text: Seq<char>,
    meta: bool,
    ctrl: bool,
    alt: bool,
    shift: bool,
    m: ChordKey,
    single: Seq<char>,
    named: Option<Seq<char>>,
)
    requires
        spec_modifier_name(m) is Some,
    ensures
        spec_key_chord(text, meta, ctrl, alt, shift, false, spec_modifier_name(m), named, single) == Seq::<char>::empty(),
        spec_key_chord(text, meta, ctrl, alt, shift, true, None, named, single) == Seq::<char>::empty(),
        modifier_held(m, meta, ctrl, alt, shift) ==> spec_key_chord(
            text,
            meta,
            ctrl,
            alt,
            shift,
            true,
            spec_modifier_name(m),
            named,
            single,
        ) + "+"@ == modifier_prefix(meta, ctrl, alt, shift),
        !modifier_held(m, meta, ctrl, alt, shift) ==> spec_key_chord(
            text,
            meta,
            ctrl,
            alt,
            shift,
            true,
            spec_modifier_name(m),
            named,
            single,
        ) == modifier_prefix(meta, ctrl, alt, shift) + spec_modifier_name(m)->0,
{
    reveal_strlit("Mod");
    reveal_strlit("Ctrl");
    reveal_strlit("Alt");
    reveal_strlit("Shift");
    let mname = spec_modifier_name(m)->0;
    let parts = held(meta, ctrl, alt, shift);
    lemma_held_contains(meta, ctrl, alt, shift, mname);
    lemma_held_prefix(meta, ctrl, alt, shift);
    if modifier_held(m, meta, ctrl, alt, shift) {
        assert(parts.contains(mname));
        lemma_join_sep(parts, "+"@);
    } else {
        assert(!parts.contains(mname)) by {
            if mname == "Mod"@ { assert(mname[0] != "Ctrl"@[0] && mname[0] != "Alt"@[0] && mname[0] != "Shift"@[0]); }
            if mname == "Ctrl"@ { assert(mname[0] != "Mod"@[0] && mname[0] != "Alt"@[0] && mname[0] != "Shift"@[0]); }
            if mname == "Alt"@ { assert(mname[0] != "Mod"@[0] && mname[0] != "Ctrl"@[0] && mname[0] != "Shift"@[0]); }
            if mname == "Shift"@ { assert(mname[0] != "Mod"@[0] && mname[0] != "Ctrl"@[0] && mname[0] != "Alt"@[0]); }
        }
        lemma_join_push(parts, "+"@, mname);
    }
}

} // verus!

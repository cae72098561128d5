//! Rule pages: which rule family a page edits, which document owns a
//! family, where a new rule goes, the page's cards, and what a rule
//! field's row shows.

use vstd::prelude::*;

use crate::common::{card_expanded, spec_card_expanded};
use crate::text::{
    append_chars, append_str, chars_of, decimal, decimal_chars, owned, signed_decimal,
    signed_decimal_chars, copy_strings, str_eq, string_of, string_views,
};

verus! {

pub open spec fn spec_rule_family(section: Seq<char>) -> Option<Seq<char>> {
    if section == "window-rules"@ {
        Some("window_rule"@)
    } else if section == "layer-rules"@ {
        Some("layer_rule"@)
    } else if section == "security-contexts"@ {
        Some("security_context_rule"@)
    } else {
        None
    }
}

/// The config table a rule page edits; `None` for other pages.
pub fn rule_family(section: &str) -> (r: Option<&'static str>)
    ensures
        match r {
            Some(f) => spec_rule_family(section@) == Some(f@),
            None => spec_rule_family(section@) is None,
        },
{
    if str_eq(section, "window-rules") {
        Some("window_rule")
    } else if str_eq(section, "layer-rules") {
        Some("layer_rule")
    } else if str_eq(section, "security-contexts") {
        Some("security_context_rule")
    } else {
        None
    }
}

/// The chain document that owns a rule family: the first include with
/// rules of that family (`counts[i]` is include `i`'s count), else the
/// main config, whose index follows the includes'.
pub fn rule_target(counts: &Vec<usize>) -> (r: usize)
    ensures
        r <= counts.len(),
        r < counts.len() ==> counts@[r as int] > 0,
        forall|j: int| 0 <= j < r && j < counts.len() ==> counts@[j] == 0,
{
    let mut i: usize = 0;
    while i < counts.len()
        invariant
            i <= counts.len(),
            forall|j: int| 0 <= j < i ==> counts@[j] == 0,
        decreases counts.len() - i,
    {
        if counts[i] > 0 {
            return i;
        }
        i = i + 1;
    }
    counts.len()
}

/// Document `k` holds strictly more rules of the family than every other.
pub open spec fn strict_leader(counts: Seq<usize>, k: int) -> bool {
    &&& 0 <= k < counts.len()
    &&& forall|j: int| 0 <= j < counts.len() && j != k ==> counts[j] < counts[k]
}

/// New rules join the file where that family already has the most rules,
/// where the user keeps them; a tie (or no rules anywhere) goes to the
/// main config. `counts` covers the whole chain, the main config last.
pub fn rule_add_target(counts: &Vec<usize>) -> (r: usize)
    requires
        counts.len() > 0,
    ensures
        r < counts.len(),
        (exists|k: int| strict_leader(counts@, k)) ==> strict_leader(counts@, r as int),
        !(exists|k: int| strict_leader(counts@, k)) ==> r == counts.len() - 1,
{
    let mut best: usize = 0;
    let mut tied: bool = false;
    let mut i: usize = 1;
    while i < counts.len()
        invariant
            1 <= i <= counts.len(),
            best < i,
            forall|j: int| 0 <= j < i ==> counts@[j] <= counts@[best as int],
            tied <==> exists|j: int| 0 <= j < i && j != best && counts@[j] == counts@[best as int],
        decreases counts.len() - i,
    {
        if counts[i] > counts[best] {
            best = i;
            tied = false;
        } else if counts[i] == counts[best] {
            tied = true;
        }
        i = i + 1;
    }
    if tied {
        assert(!exists|k: int| strict_leader(counts@, k)) by {
            let j = choose|j: int| 0 <= j < i && j != best && counts@[j] == counts@[best as int];
            assert forall|k: int| !strict_leader(counts@, k) by {
                if strict_leader(counts@, k) {
                    if k == best {
                        assert(counts@[j] < counts@[k]);
                    } else {
                        assert(counts@[best as int] < counts@[k]);
                    }
                }
            }
        }
        counts.len() - 1
    } else {
        assert(strict_leader(counts@, best as int));
        best
    }
}

/// A rule card: the chain document the rule lives in, its position among
/// that document's rules of the family, the key its open/closed state is
/// kept under, and whether it starts open.
pub struct RuleCardSlot {
    pub file: usize,
    pub index: usize,
    pub key: String,
    pub default_open: bool,
}

/// Every rule of the family, document by document in chain order, each
/// document's rules in order; `counts[d]` is document `d`'s count.
pub open spec fn rule_slots(counts: Seq<usize>, n: int) -> Seq<(int, int)>
    decreases n,
{
    if n <= 0 {
        seq![]
    } else {
        rule_slots(counts, n - 1) + Seq::new(counts[n - 1] as nat, |i: int| (n - 1, i))
    }
}

pub open spec fn rule_card_key(family: Seq<char>, file: int, index: int) -> Seq<char> {
    "rule:"@ + family + ":"@ + decimal(file as nat) + ":"@ + decimal(index as nat)
}

/// The key a rule card's open/closed state is kept under; a rule just
/// added is opened under it.
pub fn rule_card_key_text(family: &str, file: usize, index: usize) -> (r: String)
    ensures
        r@ == rule_card_key(family@, file as int, index as int),
{
    let mut key = chars_of("rule:");
    append_str(&mut key, family);
    append_str(&mut key, ":");
    append_chars(&mut key, &decimal_chars(file as u64));
    append_str(&mut key, ":");
    append_chars(&mut key, &decimal_chars(index as u64));
    string_of(&key)
}

/// The rule page's cards. A lone rule opens by default; otherwise the
/// titles read like a collapsed list until a card is opened.
pub fn rule_card_slots(family: &str, counts: &Vec<usize>) -> (r: Vec<RuleCardSlot>)
    ensures
        r@.map_values(|c: RuleCardSlot| (c.file as int, c.index as int)) == rule_slots(counts@, counts.len() as int),
        forall|k: int|
            0 <= k < r.len() ==> (#[trigger] r@[k]).key@ == rule_card_key(family@, r@[k].file as int, r@[k].index as int)
                && r@[k].default_open == (r.len() == 1),
{
    let mut out: Vec<RuleCardSlot> = Vec::new();
    let mut d: usize = 0;
    while d < counts.len()
        invariant
            d <= counts.len(),
            out@.map_values(|c: RuleCardSlot| (c.file as int, c.index as int)) == rule_slots(counts@, d as int),
            forall|k: int|
                0 <= k < out.len() ==> (#[trigger] out@[k]).key@ == rule_card_key(family@, out@[k].file as int, out@[k].index as int)
                    && !out@[k].default_open,
        decreases counts.len() - d,
    {
        let ghost base = out@.map_values(|c: RuleCardSlot| (c.file as int, c.index as int));
        let mut i: usize = 0;
        while i < counts[d]
            invariant
                d < counts.len(),
                i <= counts@[d as int],
                out@.map_values(|c: RuleCardSlot| (c.file as int, c.index as int)) == base + Seq::new(
                    i as nat,
                    |j: int| (d as int, j),
                ),
                forall|k: int|
                    0 <= k < out.len() ==> (#[trigger] out@[k]).key@ == rule_card_key(family@, out@[k].file as int, out@[k].index as int)
                        && !out@[k].default_open,
            decreases counts@[d as int] - i,
        {
            let key = rule_card_key_text(family, d, i);
            let ghost before = out@.map_values(|c: RuleCardSlot| (c.file as int, c.index as int));
            let slot = RuleCardSlot { file: d, index: i, key, default_open: false };
            out.push(slot);
            assert(out@.map_values(|c: RuleCardSlot| (c.file as int, c.index as int)) =~= before.push((d as int, i as int)));
            assert(Seq::new((i + 1) as nat, |j: int| (d as int, j)) =~= Seq::new(i as nat, |j: int| (d as int, j)).push((d as int, i as int)));
            i = i + 1;
        }
        d = d + 1;
    }
    if out.len() == 1 {
        let only = out.pop().unwrap();
        let slot = RuleCardSlot { file: only.file, index: only.index, key: only.key, default_open: true };
        let ghost before = out@;
        out.push(slot);
        assert(out@.map_values(|c: RuleCardSlot| (c.file as int, c.index as int)) =~= before.push(slot).map_values(|c: RuleCardSlot| (c.file as int, c.index as int)));
    }
    out
}

/// Whether each rule card shows open: the user's stored choice for its
/// key, else its default (a lone card opens).
pub fn rule_cards_expanded(slots: &Vec<RuleCardSlot>, stored: &Vec<(String, bool)>) -> (r: Vec<bool>)
    ensures
        r.len() == slots.len(),
        forall|k: int|
            0 <= k < r.len() ==> r@[k] == spec_card_expanded(stored@, (#[trigger] slots@[k]).key@, slots@[k].default_open),
{
    let mut out: Vec<bool> = Vec::new();
    let mut k: usize = 0;
    while k < slots.len()
        invariant
            k <= slots.len(),
            out.len() == k,
            forall|j: int|
                0 <= j < k ==> out@[j] == spec_card_expanded(stored@, (#[trigger] slots@[j]).key@, slots@[j].default_open),
        decreases slots.len() - k,
    {
        out.push(card_expanded(stored, slots[k].key.as_str(), slots[k].default_open));
        k = k + 1;
    }
    out
}

/// What a rule field edits (lists, sizes and positions edit as text).
pub enum RuleFieldKind {
    Text,
    Toggle,
    Choice(Vec<String>),
    /// A monitor name, from the outputs or typed.
    OutputChoice,
    Integer { min: i64 },
    /// A number with a fractional part, with its minimum as written.
    Float { min_text: String },
}

/// The editor a rule field gets.
#[derive(PartialEq, Eq, Structural, Clone, Copy, Debug)]
pub enum RuleInput {
    Text,
    Boolean,
    Choice,
    OpenChoice,
    Integer,
    Float,
}

/// A rule field's row: its editor, the value shown, whether a toggle is
/// ticked, and the choices offered.
pub struct RuleFieldRow {
    pub input: RuleInput,
    pub value: String,
    pub checked: bool,
    pub choices: Vec<String>,
}

/// Rules have no defaults: an unset field shows blank, a choice offers
/// "(unset)" first and shows it when unset, and a number shows its
/// minimum. `text` is the field's value as the rule writes it, empty when
/// unset; `outputs` are the monitor names.
pub open spec fn rule_row_matches(r: RuleFieldRow, kind: RuleFieldKind, text: Seq<char>, outputs: Seq<Seq<char>>) -> bool {
    match kind {
        RuleFieldKind::Text => r.input == RuleInput::Text && r.value@ == text && !r.checked && r.choices@.len() == 0,
        RuleFieldKind::Toggle => r.input == RuleInput::Boolean && r.value@ == text && r.checked == (text == "true"@)
            && r.choices@.len() == 0,
        RuleFieldKind::Choice(options) => {
            &&& r.input == RuleInput::Choice
            &&& string_views(r.choices@) == seq!["(unset)"@] + string_views(options@)
            &&& r.value@ == if text.len() == 0 {
                "(unset)"@
            } else {
                text
            }
            &&& !r.checked
        },
        RuleFieldKind::OutputChoice => r.input == RuleInput::OpenChoice && string_views(r.choices@) == outputs
            && r.value@ == text && !r.checked,
        RuleFieldKind::Integer { min } => r.input == RuleInput::Integer && r.choices@.len() == 0 && !r.checked
            && r.value@ == if text.len() == 0 {
            signed_decimal(min as int)
        } else {
            text
        },
        RuleFieldKind::Float { min_text } => r.input == RuleInput::Float && r.choices@.len() == 0 && !r.checked
            && r.value@ == if text.len() == 0 {
            min_text@
        } else {
            text
        },
    }
}

pub fn rule_field_row(kind: &RuleFieldKind, text: &str, outputs: &Vec<String>) -> (r: RuleFieldRow)
    ensures
        rule_row_matches(r, *kind, text@, string_views(outputs@)),
{
    let empty = text.unicode_len() == 0;
    match kind {
        RuleFieldKind::Text => RuleFieldRow { input: RuleInput::Text, value: owned(text), checked: false, choices: Vec::new() },
        RuleFieldKind::Toggle => RuleFieldRow {
            input: RuleInput::Boolean,
            value: owned(text),
            checked: str_eq(text, "true"),
            choices: Vec::new(),
        },
        RuleFieldKind::Choice(options) => {
            let mut choices: Vec<String> = Vec::new();
            choices.push(owned("(unset)"));
            let mut rest = copy_strings(options);
            let ghost head = string_views(choices@);
            assert(head =~= seq!["(unset)"@]);
            let ghost tail = string_views(rest@);
            choices.append(&mut rest);
            assert(string_views(choices@) =~= head + tail);
            let value = if empty {
                owned("(unset)")
            } else {
                owned(text)
            };
            RuleFieldRow { input: RuleInput::Choice, value, checked: false, choices }
        },
        RuleFieldKind::OutputChoice => RuleFieldRow {
            input: RuleInput::OpenChoice,
            value: owned(text),
            checked: false,
            choices: copy_strings(outputs),
        },
        RuleFieldKind::Integer { min } => {
            let value = if empty {
                string_of(&signed_decimal_chars(*min))
            } else {
                owned(text)
            };
            RuleFieldRow { input: RuleInput::Integer, value, checked: false, choices: Vec::new() }
        },
        RuleFieldKind::Float { min_text } => {
            let value = if empty {
                min_text.clone()
            } else {
                owned(text)
            };
            RuleFieldRow { input: RuleInput::Float, value, checked: false, choices: Vec::new() }
        },
    }
}

} // verus!

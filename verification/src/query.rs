//! Texts that describe an item from its stored rows: each star tier in detail, and each
//! behaviour in a summary. Quantities are in thousandths and shown rounded to hundredths.
use vstd::prelude::*;
use crate::text;
use crate::num;
use crate::actions::{self, Action, ActionView};

verus! {

// ---------------------------------------------------------------------------
// Rows
// ---------------------------------------------------------------------------

/// A named effect parameter of an action row.
#[derive(Clone, Debug)]
pub struct EffectEntry {
    pub key: String,
    pub value: u64,
}

/// A stored action with its effect parameters (keys are distinct).
#[derive(Clone, Debug)]
pub struct ActionRow {
    pub action: Action,
    pub effects: Vec<EffectEntry>,
}

pub struct ActionRowView {
    pub action: ActionView,
    pub effects: Seq<(Seq<char>, u64)>,
}

pub open spec fn entries_view(v: Seq<EffectEntry>) -> Seq<(Seq<char>, u64)> {
    v.map_values(|e: EffectEntry| (e.key@, e.value))
}

impl View for ActionRow {
    type V = ActionRowView;

    open spec fn view(&self) -> ActionRowView {
        ActionRowView { action: self.action@, effects: entries_view(self.effects@) }
    }
}

pub open spec fn rows_view(v: Seq<ActionRow>) -> Seq<ActionRowView> {
    v.map_values(|r: ActionRow| r@)
}

impl ActionRow {
    /// A copy with the same value.
    pub fn duplicate(&self) -> (r: ActionRow)
        ensures
            r@ == self@,
    {
        let mut effects: Vec<EffectEntry> = Vec::new();
        let mut i: usize = 0;
        while i < self.effects.len()
            invariant
                i <= self.effects@.len(),
                entries_view(effects@) == entries_view(self.effects@.subrange(0, i as int)),
            decreases self.effects@.len() - i,
        {
            let e = EffectEntry { key: self.effects[i].key.clone(), value: self.effects[i].value };
            let ghost before = effects@;
            effects.push(e);
            assert(entries_view(effects@) =~= entries_view(before).push(
                (self.effects@[i as int].key@, self.effects@[i as int].value),
            ));
            assert(entries_view(self.effects@.subrange(0, i + 1)) =~= entries_view(
                self.effects@.subrange(0, i as int),
            ).push((self.effects@[i as int].key@, self.effects@[i as int].value)));
            i += 1;
        }
        assert(self.effects@.subrange(0, self.effects@.len() as int) =~= self.effects@);
        ActionRow { action: self.action.duplicate(), effects }
    }
}

/// A star tier as the report shows it: attack and interval in thousandths.
#[derive(Clone, Debug)]
pub struct TierProfile {
    pub star: i64,
    pub attack: u64,
    pub interval: u64,
    pub normal_sword: i64,
}

/// An item's base facts as the report shows them.
#[derive(Clone, Debug)]
pub struct ItemInfo {
    pub short: String,
    pub full: String,
    pub kind_label: String,
    pub bag_slots: String,
    pub attack: u64,
    pub interval: u64,
    pub tags: String,
}

// ---------------------------------------------------------------------------
// Numbers and labels
// ---------------------------------------------------------------------------

/// A number to show: a quantity in thousandths, or a whole number.
#[derive(Clone, Copy)]
pub enum Shown {
    Quantity(u64),
    Whole(i64),
}

pub open spec fn shown(x: Shown) -> Seq<char> {
    match x {
        Shown::Quantity(v) => num::fmt2(v as nat),
        Shown::Whole(i) => num::int_str(i as int),
    }
}

/// A number shown, or `"-"` when there is none.
pub open spec fn dash_or(x: Option<Shown>) -> Seq<char> {
    match x {
        Some(v) => shown(v),
        None => "-"@,
    }
}

pub open spec fn qty(x: Option<u64>) -> Option<Shown> {
    match x {
        Some(v) => Some(Shown::Quantity(v)),
        None => None,
    }
}

pub open spec fn whole(x: Option<i64>) -> Option<Shown> {
    match x {
        Some(v) => Some(Shown::Whole(v)),
        None => None,
    }
}

pub fn show(x: Shown) -> (r: String)
    ensures
        r@ == shown(x),
{
    match x {
        Shown::Quantity(v) => num::format2(v),
        Shown::Whole(i) => num::int_string(i),
    }
}

pub fn show_or_dash(x: Option<Shown>) -> (r: String)
    ensures
        r@ == dash_or(x),
{
    match x {
        Some(v) => show(v),
        None => text::string_from("-"),
    }
}

fn qty_exec(x: Option<u64>) -> (r: Option<Shown>)
    ensures
        r == qty(x),
{
    match x {
        Some(v) => Some(Shown::Quantity(v)),
        None => None,
    }
}

fn whole_exec(x: Option<i64>) -> (r: Option<Shown>)
    ensures
        r == whole(x),
{
    match x {
        Some(v) => Some(Shown::Whole(v)),
        None => None,
    }
}

pub open spec fn spec_trigger_label(t: Seq<char>) -> Seq<char> {
    if t == "battle_start"@ {
        "战斗初始"@
    } else if t == "active_use"@ {
        "发动效果"@
    } else if t == "on_attack_hit"@ {
        "攻击命中时"@
    } else if t == "on_normal_hit"@ {
        "普通攻击命中后"@
    } else if t == "on_charged_hit"@ {
        "蓄力攻击命中后"@
    } else if t == "on_crit"@ {
        "暴击时"@
    } else if t == "on_accelerated"@ {
        "我方道具被加速时"@
    } else if t == "on_heal"@ {
        "受到治疗后"@
    } else if t == "on_freeze_triggered"@ {
        "冻结触发时"@
    } else {
        t
    }
}

/// The reader's name of a trigger; unknown triggers are shown as they are.
pub fn trigger_label(trigger: &str) -> (r: String)
    ensures
        r@ == spec_trigger_label(trigger@),
{
    let t = text::chars_of(trigger);
    if text::eq_str(&t, "battle_start") {
        text::string_from("战斗初始")
    } else if text::eq_str(&t, "active_use") {
        text::string_from("发动效果")
    } else if text::eq_str(&t, "on_attack_hit") {
        text::string_from("攻击命中时")
    } else if text::eq_str(&t, "on_normal_hit") {
        text::string_from("普通攻击命中后")
    } else if text::eq_str(&t, "on_charged_hit") {
        text::string_from("蓄力攻击命中后")
    } else if text::eq_str(&t, "on_crit") {
        text::string_from("暴击时")
    } else if text::eq_str(&t, "on_accelerated") {
        text::string_from("我方道具被加速时")
    } else if text::eq_str(&t, "on_heal") {
        text::string_from("受到治疗后")
    } else if text::eq_str(&t, "on_freeze_triggered") {
        text::string_from("冻结触发时")
    } else {
        text::string_from(trigger)
    }
}

pub open spec fn spec_target_label(t: Seq<char>) -> Seq<char> {
    if t == "self"@ {
        "自身"@
    } else if t == "enemy"@ {
        "对手"@
    } else if t == "self_weapons"@ {
        "所有武器"@
    } else if t == "self_adjacent_weapons"@ {
        "相邻武器"@
    } else if t == "enemy_active"@ {
        "对手读条道具"@
    } else if t == "self_active"@ {
        "我方读条道具"@
    } else {
        t
    }
}

/// The reader's name of a target; unknown targets are shown as they are.
pub fn target_label(target: &str) -> (r: String)
    ensures
        r@ == spec_target_label(target@),
{
    let t = text::chars_of(target);
    if text::eq_str(&t, "self") {
        text::string_from("自身")
    } else if text::eq_str(&t, "enemy") {
        text::string_from("对手")
    } else if text::eq_str(&t, "self_weapons") {
        text::string_from("所有武器")
    } else if text::eq_str(&t, "self_adjacent_weapons") {
        text::string_from("相邻武器")
    } else if text::eq_str(&t, "enemy_active") {
        text::string_from("对手读条道具")
    } else if text::eq_str(&t, "self_active") {
        text::string_from("我方读条道具")
    } else {
        text::string_from(target)
    }
}

/// `label` and the quantity, or nothing when there is none.
pub open spec fn spec_optional_quantity_text(label: Seq<char>, v: Option<u64>) -> Seq<char> {
    match v {
        Some(x) => label + num::fmt2(x as nat),
        None => seq![],
    }
}

pub fn optional_quantity_text(label: &str, value: Option<u64>) -> (r: String)
    ensures
        r@ == spec_optional_quantity_text(label@, value),
{
    match value {
        Some(x) => {
            let mut s = text::string_from(label);
            let n = num::format2(x);
            text::push_str(&mut s, n.as_str());
            s
        },
        None => String::new(),
    }
}

/// `label` and the whole number, or nothing when there is none.
pub open spec fn spec_optional_whole_text(label: Seq<char>, v: Option<i64>) -> Seq<char> {
    match v {
        Some(x) => label + num::int_str(x as int),
        None => seq![],
    }
}

pub fn optional_whole_text(label: &str, value: Option<i64>) -> (r: String)
    ensures
        r@ == spec_optional_whole_text(label@, value),
{
    match value {
        Some(x) => {
            let mut s = text::string_from(label);
            let n = num::int_string(x);
            text::push_str(&mut s, n.as_str());
            s
        },
        None => String::new(),
    }
}

/// `"-"` for a blank text, else the text itself.
pub fn empty_as_dash(value: &str) -> (r: String)
    ensures
        r@ == (if text::trim(value@).len() == 0 {
            "-"@
        } else {
            value@
        }),
{
    let v = text::chars_of(value);
    let t = text::trim_exec(&v);
    if t.len() == 0 {
        text::string_from("-")
    } else {
        text::string_from(value)
    }
}

// ---------------------------------------------------------------------------
// Effect parameters and values
// ---------------------------------------------------------------------------

/// The value of the effect parameter `key` (the first entry with that key).
pub open spec fn effect_value(effects: Seq<(Seq<char>, u64)>, key: Seq<char>) -> Option<u64>
    decreases effects.len(),
{
    if effects.len() == 0 {
        None
    } else if effects[0].0 == key {
        Some(effects[0].1)
    } else {
        effect_value(effects.drop_first(), key)
    }
}

fn effect_value_exec(effects: &Vec<EffectEntry>, key: &str) -> (r: Option<u64>)
    ensures
        r == effect_value(entries_view(effects@), key@),
{
    let k = text::chars_of(key);
    let ghost ev = entries_view(effects@);
    let mut i: usize = 0;
    assert(ev.subrange(0, ev.len() as int) =~= ev);
    while i < effects.len()
        invariant
            k@ == key@,
            ev == entries_view(effects@),
            i <= effects@.len(),
            effect_value(ev, key@) == effect_value(ev.subrange(i as int, ev.len() as int), key@),
        decreases effects@.len() - i,
    {
        assert(ev.subrange(i as int, ev.len() as int).drop_first() =~= ev.subrange(
            i + 1,
            ev.len() as int,
        ));
        assert(ev.subrange(i as int, ev.len() as int)[0] == ev[i as int]);
        if text::eq_str(&k, effects[i].key.as_str()) {
            return Some(effects[i].value);
        }
        i += 1;
    }
    None
}

/// An effect parameter shown, else the fallback, else `"-"`.
pub open spec fn spec_effect_label(row: ActionRowView, key: Seq<char>, fallback: Option<Shown>) -> Seq<
    char,
> {
    match effect_value(row.effects, key) {
        Some(v) => num::fmt2(v as nat),
        None => dash_or(fallback),
    }
}

pub fn effect_label(row: &ActionRow, key: &str, fallback: Option<Shown>) -> (r: String)
    ensures
        r@ == spec_effect_label(row@, key@, fallback),
{
    match effect_value_exec(&row.effects, key) {
        Some(v) => num::format2(v),
        None => show_or_dash(fallback),
    }
}

/// Which stored value of an action a summary shows.
#[derive(Clone, Copy)]
pub enum ValueField {
    Amount,
    Duration,
    Count,
}

pub open spec fn spec_action_value(a: ActionView, field: ValueField) -> Seq<char> {
    match field {
        ValueField::Amount => dash_or(qty(a.amount)),
        ValueField::Duration => dash_or(qty(a.duration)),
        ValueField::Count => dash_or(whole(a.count)),
    }
}

pub fn action_value(a: &Action, field: ValueField) -> (r: String)
    ensures
        r@ == spec_action_value(a@, field),
{
    match field {
        ValueField::Amount => show_or_dash(qty_exec(a.amount)),
        ValueField::Duration => show_or_dash(qty_exec(a.duration)),
        ValueField::Count => show_or_dash(whole_exec(a.count)),
    }
}

/// One value when all are the same, else all of them joined by `'/'`; `"-"` for none.
pub open spec fn spec_collapse_values(values: Seq<Seq<char>>) -> Seq<char> {
    if values.len() == 0 {
        "-"@
    } else if forall|i: int| 0 <= i < values.len() ==> #[trigger] values[i] == values[0] {
        values[0]
    } else {
        text::join(values, "/"@)
    }
}

pub fn collapse_values(values: &Vec<String>) -> (r: String)
    ensures
        r@ == spec_collapse_values(text::strs(values@)),
{
    let ghost vs = text::strs(values@);
    if values.len() == 0 {
        return text::string_from("-");
    }
    let mut i: usize = 1;
    while i < values.len()
        invariant
            vs == text::strs(values@),
            1 <= i <= values@.len(),
            forall|j: int| 0 <= j < i ==> #[trigger] vs[j] == vs[0],
        decreases values@.len() - i,
    {
        if !text::string_eq_str(&values[i], values[0].as_str()) {
            assert(vs[i as int] != vs[0]);
            return text::join_strings(values, "/");
        }
        i += 1;
    }
    text::string_from(values[0].as_str())
}

/// The rows at tier `star`, in order.
pub open spec fn rows_at_star(rows: Seq<ActionView>, star: int) -> Seq<ActionView>
    decreases rows.len(),
{
    if rows.len() == 0 {
        seq![]
    } else if rows.last().star == star {
        rows_at_star(rows.drop_last(), star).push(rows.last())
    } else {
        rows_at_star(rows.drop_last(), star)
    }
}

/// The rows of tiers 1 to 4, ordered by tier (rows of one tier in their order).
pub open spec fn tier_rows(rows: Seq<ActionView>) -> Seq<ActionView> {
    rows_at_star(rows, 1) + rows_at_star(rows, 2) + rows_at_star(rows, 3) + rows_at_star(rows, 4)
}

/// The first row of tier 0.
pub open spec fn first_generic(rows: Seq<ActionView>) -> Option<ActionView>
    decreases rows.len(),
{
    if rows.len() == 0 {
        None
    } else if rows[0].star == 0 {
        Some(rows[0])
    } else {
        first_generic(rows.drop_first())
    }
}

/// A value of a group of rows: the values of its four tiers collapsed when all four tiers
/// are there, else the value of its first tier-0 row, or of its first row, or `"-"`.
pub open spec fn spec_action_values_label(rows: Seq<ActionView>, field: ValueField) -> Seq<char> {
    let t = tier_rows(rows);
    if t.len() == 4 {
        spec_collapse_values(t.map_values(|a: ActionView| spec_action_value(a, field)))
    } else {
        match first_generic(rows) {
            Some(a) => spec_action_value(a, field),
            None => if rows.len() > 0 {
                spec_action_value(rows[0], field)
            } else {
                "-"@
            },
        }
    }
}

pub open spec fn group_actions(g: Seq<ActionRowView>) -> Seq<ActionView> {
    g.map_values(|r: ActionRowView| r.action)
}

fn rows_at_star_exec(rows: &Vec<ActionRow>, star: i64, out: &mut Vec<Action>)
    ensures
        actions::views(final(out)@) == actions::views(old(out)@) + rows_at_star(
            group_actions(rows_view(rows@)),
            star as int,
        ),
{
    let ghost ga = group_actions(rows_view(rows@));
    let ghost start = actions::views(out@);
    let mut i: usize = 0;
    assert(ga.subrange(0, 0) =~= Seq::<ActionView>::empty());
    assert(start + rows_at_star(ga.subrange(0, 0), star as int) =~= start);
    while i < rows.len()
        invariant
            ga == group_actions(rows_view(rows@)),
            i <= rows@.len(),
            actions::views(out@) == start + rows_at_star(ga.subrange(0, i as int), star as int),
        decreases rows@.len() - i,
    {
        assert(ga.subrange(0, i + 1).drop_last() =~= ga.subrange(0, i as int));
        assert(ga.subrange(0, i + 1).last() == rows@[i as int].action@);
        if rows[i].action.star == star {
            let ghost before = out@;
            out.push(rows[i].action.duplicate());
            assert(actions::views(out@) =~= actions::views(before).push(rows@[i as int].action@));
        }
        i += 1;
    }
    assert(ga.subrange(0, rows@.len() as int) =~= ga);
}

/// A value of a group of rows (see `spec_action_values_label`).
pub fn action_values_label(rows: &Vec<ActionRow>, field: ValueField) -> (r: String)
    ensures
        r@ == spec_action_values_label(group_actions(rows_view(rows@)), field),
{
    let ghost ga = group_actions(rows_view(rows@));
    let mut t: Vec<Action> = Vec::new();
    rows_at_star_exec(rows, 1, &mut t);
    rows_at_star_exec(rows, 2, &mut t);
    rows_at_star_exec(rows, 3, &mut t);
    rows_at_star_exec(rows, 4, &mut t);
    assert(actions::views(t@) =~= tier_rows(ga));
    if t.len() == 4 {
        let mut values: Vec<String> = Vec::new();
        let mut i: usize = 0;
        while i < t.len()
            invariant
                i <= t@.len(),
                text::strs(values@) == actions::views(t@).subrange(0, i as int).map_values(
                    |a: ActionView| spec_action_value(a, field),
                ),
            decreases t@.len() - i,
        {
            let ghost before = values@;
            values.push(action_value(&t[i], field));
            assert(text::strs(values@) =~= text::strs(before).push(spec_action_value(t@[i as int]@, field)));
            assert(actions::views(t@).subrange(0, i + 1).map_values(
                |a: ActionView| spec_action_value(a, field),
            ) =~= actions::views(t@).subrange(0, i as int).map_values(
                |a: ActionView| spec_action_value(a, field),
            ).push(spec_action_value(t@[i as int]@, field)));
            i += 1;
        }
        assert(actions::views(t@).subrange(0, 4) =~= actions::views(t@));
        return collapse_values(&values);
    }
    let mut i: usize = 0;
    assert(ga.subrange(0, ga.len() as int) =~= ga);
    while i < rows.len()
        invariant
            ga == group_actions(rows_view(rows@)),
            i <= rows@.len(),
            first_generic(ga) == first_generic(ga.subrange(i as int, ga.len() as int)),
            tier_rows(ga).len() != 4,
        decreases rows@.len() - i,
    {
        assert(ga.subrange(i as int, ga.len() as int).drop_first() =~= ga.subrange(
            i + 1,
            ga.len() as int,
        ));
        assert(ga.subrange(i as int, ga.len() as int)[0] == rows@[i as int].action@);
        if rows[i].action.star == 0 {
            return action_value(&rows[i].action, field);
        }
        i += 1;
    }
    if rows.len() > 0 {
        action_value(&rows[0].action, field)
    } else {
        text::string_from("-")
    }
}

/// The normal-attack sword of the tiers, collapsed; `"-"` without tiers.
pub open spec fn spec_normal_sword_label(profiles: Seq<TierProfile>) -> Seq<char> {
    if profiles.len() == 0 {
        "-"@
    } else {
        spec_collapse_values(profiles.map_values(|p: TierProfile| num::int_str(p.normal_sword as int)))
    }
}

pub fn normal_sword_label(profiles: &Vec<TierProfile>) -> (r: String)
    ensures
        r@ == spec_normal_sword_label(profiles@),
{
    if profiles.len() == 0 {
        return text::string_from("-");
    }
    let mut values: Vec<String> = Vec::new();
    let mut i: usize = 0;
    while i < profiles.len()
        invariant
            i <= profiles@.len(),
            text::strs(values@) == profiles@.subrange(0, i as int).map_values(
                |p: TierProfile| num::int_str(p.normal_sword as int),
            ),
        decreases profiles@.len() - i,
    {
        let ghost before = values@;
        values.push(num::int_string(profiles[i].normal_sword));
        assert(text::strs(values@) =~= text::strs(before).push(
            num::int_str(profiles@[i as int].normal_sword as int),
        ));
        assert(profiles@.subrange(0, i + 1).map_values(
            |p: TierProfile| num::int_str(p.normal_sword as int),
        ) =~= profiles@.subrange(0, i as int).map_values(
            |p: TierProfile| num::int_str(p.normal_sword as int),
        ).push(num::int_str(profiles@[i as int].normal_sword as int)));
        i += 1;
    }
    assert(profiles@.subrange(0, profiles@.len() as int) =~= profiles@);
    collapse_values(&values)
}

pub open spec fn min_opt(a: Option<u64>, b: Option<u64>) -> Option<u64> {
    match (a, b) {
        (Some(x), Some(y)) => Some(if x <= y {
            x
        } else {
            y
        }),
        (Some(x), None) => Some(x),
        (None, y) => y,
    }
}

/// The least multi-trigger count among the active-use rows (a row's `multi_trigger`
/// parameter, else its amount).
pub open spec fn least_multi_trigger(rows: Seq<ActionRowView>) -> Option<u64>
    decreases rows.len(),
{
    if rows.len() == 0 {
        None
    } else {
        let r = rows.last();
        let v = if r.action.trigger == "active_use"@ {
            match effect_value(r.effects, "multi_trigger"@) {
                Some(x) => Some(x),
                None => r.action.amount,
            }
        } else {
            None
        };
        min_opt(least_multi_trigger(rows.drop_last()), v)
    }
}

/// The multi-trigger count an item shows: the least one among its active-use rows.
pub fn multi_trigger_label(rows: &Vec<ActionRow>) -> (r: Option<String>)
    ensures
        match least_multi_trigger(rows_view(rows@)) {
            Some(v) => r matches Some(s) && s@ == num::fmt2(v as nat),
            None => r is None,
        },
{
    let ghost rv = rows_view(rows@);
    let mut best: Option<u64> = None;
    let mut i: usize = 0;
    assert(rv.subrange(0, 0) =~= Seq::<ActionRowView>::empty());
    while i < rows.len()
        invariant
            rv == rows_view(rows@),
            i <= rows@.len(),
            best == least_multi_trigger(rv.subrange(0, i as int)),
        decreases rows@.len() - i,
    {
        assert(rv.subrange(0, i + 1).drop_last() =~= rv.subrange(0, i as int));
        assert(rv.subrange(0, i + 1).last() == rows@[i as int]@);
        let v: Option<u64> = if text::string_eq_str(&rows[i].action.trigger, "active_use") {
            match effect_value_exec(&rows[i].effects, "multi_trigger") {
                Some(x) => Some(x),
                None => rows[i].action.amount,
            }
        } else {
            None
        };
        best = match (best, v) {
            (Some(x), Some(y)) => Some(if x <= y {
                x
            } else {
                y
            }),
            (Some(x), None) => Some(x),
            (None, y) => y,
        };
        i += 1;
    }
    assert(rv.subrange(0, rows@.len() as int) =~= rv);
    match best {
        Some(v) => Some(num::format2(v)),
        None => None,
    }
}

// ---------------------------------------------------------------------------
// The rows of one star tier
// ---------------------------------------------------------------------------

/// The order of action keys: trigger, action, target, then sort order.
pub open spec fn key_lt(a: ActionView, b: ActionView) -> bool {
    text::str_lt(a.trigger, b.trigger) || (a.trigger == b.trigger && (text::str_lt(
        a.action,
        b.action,
    ) || (a.action == b.action && (text::str_lt(a.target, b.target) || (a.target == b.target
        && a.sort_order < b.sort_order)))))
}

/// The first position from `i` on whose key is not below `x`'s.
pub open spec fn key_lower(acc: Seq<ActionRowView>, x: ActionView, i: int) -> int
    decreases acc.len() - i,
{
    if i < 0 || i >= acc.len() {
        acc.len() as int
    } else if !key_lt(acc[i].action, x) {
        i
    } else {
        key_lower(acc, x, i + 1)
    }
}

pub proof fn lemma_key_lower(acc: Seq<ActionRowView>, x: ActionView, i: int)
    requires
        0 <= i <= acc.len(),
    ensures
        i <= key_lower(acc, x, i) <= acc.len(),
    decreases acc.len() - i,
{
    if i < acc.len() && key_lt(acc[i].action, x) {
        lemma_key_lower(acc, x, i + 1);
    }
}

/// Keeping `x` in rows kept by key in key order: a row of the same key is replaced when
/// `x`'s tier is not lower; else `x` takes its place in key order.
pub open spec fn keep_by_key(acc: Seq<ActionRowView>, x: ActionRowView) -> Seq<ActionRowView> {
    let p = key_lower(acc, x.action, 0);
    if 0 <= p < acc.len() && actions::same_key(acc[p].action, x.action) {
        if x.action.star >= acc[p].action.star {
            acc.update(p, x)
        } else {
            acc
        }
    } else {
        acc.insert(p, x)
    }
}

/// The rows of tier 0 and tier `star`: one per key (of the highest tier, the later of
/// equals), in key order.
pub open spec fn spec_actions_for_star(rows: Seq<ActionRowView>, star: int) -> Seq<ActionRowView>
    decreases rows.len(),
{
    if rows.len() == 0 {
        seq![]
    } else {
        let acc = spec_actions_for_star(rows.drop_last(), star);
        let x = rows.last();
        if x.action.star != 0 && x.action.star != star {
            acc
        } else {
            keep_by_key(acc, x)
        }
    }
}

proof fn lemma_key_lt_trans(a: ActionView, b: ActionView, c: ActionView)
    requires
        key_lt(a, b),
        key_lt(b, c),
    ensures
        key_lt(a, c),
{
    if text::str_lt(a.trigger, b.trigger) && text::str_lt(b.trigger, c.trigger) {
        text::lemma_str_lt_trans(a.trigger, b.trigger, c.trigger);
    } else if a.trigger == b.trigger && b.trigger == c.trigger {
        if text::str_lt(a.action, b.action) && text::str_lt(b.action, c.action) {
            text::lemma_str_lt_trans(a.action, b.action, c.action);
        } else if a.action == b.action && b.action == c.action {
            if text::str_lt(a.target, b.target) && text::str_lt(b.target, c.target) {
                text::lemma_str_lt_trans(a.target, b.target, c.target);
            }
        }
    }
}

proof fn lemma_key_lt_total(a: ActionView, b: ActionView)
    ensures
        key_lt(a, b) || key_lt(b, a) || actions::same_key(a, b),
        !(key_lt(a, b) && key_lt(b, a)),
        actions::same_key(a, b) ==> !key_lt(a, b),
{
    text::lemma_str_lt_total(a.trigger, b.trigger);
    text::lemma_str_lt_total(a.action, b.action);
    text::lemma_str_lt_total(a.target, b.target);
    text::lemma_str_lt_asym(a.trigger, b.trigger);
    text::lemma_str_lt_asym(a.action, b.action);
    text::lemma_str_lt_asym(a.target, b.target);
    text::lemma_str_lt_irrefl(a.trigger);
    text::lemma_str_lt_irrefl(a.action);
    text::lemma_str_lt_irrefl(a.target);
}

/// Rows in strictly increasing key order (so one row per key).
pub open spec fn key_sorted(acc: Seq<ActionRowView>) -> bool {
    forall|i: int, j: int| 0 <= i < j < acc.len() ==> key_lt(#[trigger] acc[i].action, #[trigger] acc[j].action)
}

proof fn lemma_key_lower_below(acc: Seq<ActionRowView>, x: ActionView, i: int)
    requires
        0 <= i <= acc.len(),
    ensures
        forall|j: int| i <= j < key_lower(acc, x, i) ==> key_lt(#[trigger] acc[j].action, x),
        key_lower(acc, x, i) < acc.len() ==> !key_lt(acc[key_lower(acc, x, i)].action, x),
    decreases acc.len() - i,
{
    if i < acc.len() && key_lt(acc[i].action, x) {
        lemma_key_lower_below(acc, x, i + 1);
    }
}

proof fn lemma_keep_by_key_sorted(acc: Seq<ActionRowView>, x: ActionRowView)
    requires
        key_sorted(acc),
    ensures
        key_sorted(keep_by_key(acc, x)),
{
    let p = key_lower(acc, x.action, 0);
    lemma_key_lower(acc, x.action, 0);
    lemma_key_lower_below(acc, x.action, 0);
    if 0 <= p < acc.len() && actions::same_key(acc[p].action, x.action) {
        let t = acc.update(p, x);
        assert forall|i: int, j: int| 0 <= i < j < t.len() implies key_lt(
            #[trigger] t[i].action,
            #[trigger] t[j].action,
        ) by {
            assert(key_lt(acc[i].action, acc[j].action));
        }
    } else {
        let t = acc.insert(p, x);
        acc.insert_ensures(p, x);
        if p < acc.len() {
            lemma_key_lt_total(acc[p].action, x.action);
        }
        assert forall|i: int, j: int| 0 <= i < j < t.len() implies key_lt(
            #[trigger] t[i].action,
            #[trigger] t[j].action,
        ) by {
            if j < p {
                assert(key_lt(acc[i].action, acc[j].action));
            } else if j == p {
                assert(key_lt(acc[i].action, x.action));
            } else if i < p {
                assert(t[j] == acc[j - 1]);
                assert(key_lt(acc[i].action, x.action));
                assert(key_lt(x.action, acc[p].action));
                if p < j - 1 {
                    assert(key_lt(acc[p].action, acc[j - 1].action));
                    lemma_key_lt_trans(x.action, acc[p].action, acc[j - 1].action);
                }
                lemma_key_lt_trans(acc[i].action, x.action, acc[j - 1].action);
            } else if i == p {
                assert(t[j] == acc[j - 1]);
                if p < j - 1 {
                    assert(key_lt(acc[p].action, acc[j - 1].action));
                    lemma_key_lt_trans(x.action, acc[p].action, acc[j - 1].action);
                }
            } else {
                assert(t[j] == acc[j - 1] && t[i] == acc[i - 1]);
                assert(key_lt(acc[i - 1].action, acc[j - 1].action));
            }
        }
    }
}

/// The rows that hold at a star tier come one per key, in increasing key order.
pub proof fn lemma_actions_for_star_sorted(rows: Seq<ActionRowView>, star: int)
    ensures
        key_sorted(spec_actions_for_star(rows, star)),
    decreases rows.len(),
{
    if rows.len() > 0 {
        lemma_actions_for_star_sorted(rows.drop_last(), star);
        let x = rows.last();
        if !(x.action.star != 0 && x.action.star != star) {
            lemma_keep_by_key_sorted(spec_actions_for_star(rows.drop_last(), star), x);
        }
    }
}

fn key_lt_exec(a: &Action, b: &Action) -> (r: bool)
    ensures
        r == key_lt(a@, b@),
{
    let at = text::chars_of(a.trigger.as_str());
    let bt = text::chars_of(b.trigger.as_str());
    if text::str_lt_exec(&at, &bt) {
        return true;
    }
    if !text::eq_chars(&at, &bt) {
        return false;
    }
    let aa = text::chars_of(a.action.as_str());
    let ba = text::chars_of(b.action.as_str());
    if text::str_lt_exec(&aa, &ba) {
        return true;
    }
    if !text::eq_chars(&aa, &ba) {
        return false;
    }
    let ag = text::chars_of(a.target.as_str());
    let bg = text::chars_of(b.target.as_str());
    if text::str_lt_exec(&ag, &bg) {
        return true;
    }
    if !text::eq_chars(&ag, &bg) {
        return false;
    }
    a.sort_order < b.sort_order
}

fn same_key_exec(a: &Action, b: &Action) -> (r: bool)
    ensures
        r == actions::same_key(a@, b@),
{
    text::string_eq_str(&a.trigger, b.trigger.as_str()) && text::string_eq_str(
        &a.action,
        b.action.as_str(),
    ) && text::string_eq_str(&a.target, b.target.as_str()) && a.sort_order == b.sort_order
}

/// The rows that hold at tier `star` (see `spec_actions_for_star`).
pub fn actions_for_star(rows: &Vec<ActionRow>, star: i64) -> (r: Vec<ActionRow>)
    ensures
        rows_view(r@) == spec_actions_for_star(rows_view(rows@), star as int),
{
    let ghost rv = rows_view(rows@);
    let mut out: Vec<ActionRow> = Vec::new();
    let mut i: usize = 0;
    assert(rv.subrange(0, 0) =~= Seq::<ActionRowView>::empty());
    assert(rows_view(out@) =~= Seq::<ActionRowView>::empty());
    while i < rows.len()
        invariant
            rv == rows_view(rows@),
            i <= rows@.len(),
            rows_view(out@) == spec_actions_for_star(rv.subrange(0, i as int), star as int),
        decreases rows@.len() - i,
    {
        assert(rv.subrange(0, i + 1).drop_last() =~= rv.subrange(0, i as int));
        assert(rv.subrange(0, i + 1).last() == rows@[i as int]@);
        let s = rows[i].action.star;
        if s == 0 || s == star {
            let x = rows[i].duplicate();
            let ghost acc = rows_view(out@);
            let mut p: usize = 0;
            while p < out.len() && key_lt_exec(&out[p].action, &x.action)
                invariant
                    acc == rows_view(out@),
                    p <= out@.len(),
                    key_lower(acc, x@.action, 0) == key_lower(acc, x@.action, p as int),
                decreases out@.len() - p,
            {
                p += 1;
            }
            assert(p == key_lower(acc, x@.action, 0));
            if p < out.len() && same_key_exec(&out[p].action, &x.action) {
                if x.action.star >= out[p].action.star {
                    out.set(p, x);
                    assert(rows_view(out@) =~= acc.update(p as int, x@));
                }
            } else {
                out.insert(p, x);
                assert(rows_view(out@) =~= acc.insert(p as int, x@));
            }
        }
        i += 1;
    }
    assert(rv.subrange(0, rows@.len() as int) =~= rv);
    out
}

// ---------------------------------------------------------------------------
// The detail of one star tier
// ---------------------------------------------------------------------------

/// The tier's own numbers: attack, interval and normal-attack sword, those that are not 0.
pub open spec fn base_parts(p: TierProfile) -> Seq<Seq<char>> {
    (if p.attack != 0 {
        seq!["攻击力 "@ + num::fmt2(p.attack as nat)]
    } else {
        seq![]
    }) + (if p.interval != 0 {
        seq!["发动间隔 "@ + num::fmt2(p.interval as nat)]
    } else {
        seq![]
    }) + (if p.normal_sword != 0 {
        seq!["普攻剑势 "@ + num::int_str(p.normal_sword as int)]
    } else {
        seq![]
    })
}

/// The sentences one action row adds to a tier's detail.
pub open spec fn row_parts(p: TierProfile, r: ActionRowView) -> Seq<Seq<char>> {
    let a = r.action;
    let t = a.trigger;
    let n = a.action;
    if t == "active_use"@ && n == "freezing_normal_weapon_attack"@ {
        seq![
            "冻结对手随机"@ + spec_effect_label(r, "freeze_count"@, whole(a.count)) + "件道具"@
                + spec_effect_label(r, "freeze_duration"@, qty(a.duration)) + "秒"@,
        ]
    } else if t == "active_use"@ && n == "charged_healing_weapon_attack"@ {
        seq![
            "蓄力攻击消耗"@ + spec_effect_label(r, "charged_sword_cost"@, None) + "点剑势，造成"@
                + spec_effect_label(r, "charged_damage_multiplier"@, None) + "倍武器攻击力的伤害，生命恢复+"@
                + spec_effect_label(r, "charged_heal"@, None) + "点"@,
            "普通攻击造成等同于武器攻击力的伤害，剑势+"@ + spec_effect_label(
                r,
                "normal_sword"@,
                Some(Shown::Whole(p.normal_sword)),
            ) + "点，生命恢复+"@ + spec_effect_label(r, "normal_heal"@, None) + "点"@,
        ]
    } else if t == "active_use"@ && n == "charged_sword_control_weapon_attack"@ {
        seq![
            "蓄力攻击消耗"@ + spec_effect_label(r, "charged_sword_cost"@, None) + "点剑势，造成"@
                + spec_effect_label(r, "charged_damage_multiplier"@, None) + "倍武器攻击力的伤害，对手剑势-"@
                + spec_effect_label(r, "charged_enemy_sword_loss"@, None) + "点，冻结对手随机"@
                + spec_effect_label(r, "freeze_count"@, whole(a.count)) + "件道具"@
                + spec_effect_label(r, "freeze_duration"@, qty(a.duration)) + "秒"@,
        ]
    } else if t == "on_freeze_source"@ && n == "add_freeze_attack_stack"@ {
        seq![
            "触发冻结所有武器攻击加成 "@ + spec_effect_label(r, "attack_bonus"@, qty(a.amount))
                + "，最多叠加"@ + spec_effect_label(r, "max_stacks"@, whole(a.count)) + "次"@,
        ]
    } else if t == "battle_start"@ && n == "start_sword"@ {
        seq!["战斗初始剑势+"@ + spec_effect_label(r, "start_sword"@, qty(a.amount))]
    } else if t == "on_charged_hit"@ && n == "sword"@ {
        seq!["蓄力命中剑势+"@ + dash_or(qty(a.amount))]
    } else if t == "on_charged_hit"@ && n == "freeze_random"@ {
        seq![
            "蓄力命中冻结对手随机"@ + dash_or(whole(a.count)) + "件道具"@ + dash_or(qty(a.duration))
                + "秒"@,
        ]
    } else if t == "on_attack_hit"@ && n == "enemy_sword"@ {
        seq!["攻击命中对手剑势-"@ + spec_effect_label(r, "enemy_sword_loss"@, qty(a.amount))]
    } else if t == "on_heal"@ && n == "charge_self"@ {
        seq!["受到治疗后本武器充能"@ + spec_effect_label(r, "charge_seconds"@, qty(a.amount)) + "秒"@]
    } else if t == "on_crit"@ && n == "slow_random"@ {
        seq![
            "暴击减速对手随机"@ + dash_or(whole(a.count)) + "件道具"@ + dash_or(qty(a.duration))
                + "秒"@,
        ]
    } else if t == "on_accelerated"@ && n
        == "add_adjacent_weapon_attack_stacking_if_adjacent_to_context"@ {
        seq![
            "我方道具被加速时相邻武器攻击加成 "@ + dash_or(qty(a.amount)) + "，最多叠加"@ + dash_or(
                whole(a.count),
            ) + "层"@,
        ]
    } else {
        seq![]
    }
}

pub open spec fn detail_parts(p: TierProfile, rows: Seq<ActionRowView>) -> Seq<Seq<char>>
    decreases rows.len(),
{
    if rows.len() == 0 {
        seq![]
    } else {
        detail_parts(p, rows.drop_last()) + row_parts(p, rows.last())
    }
}

/// The detail of a star tier: its numbers, then what each of its rows (see
/// `spec_actions_for_star`) adds, joined by `'，'`.
pub open spec fn spec_star_detail_text(p: TierProfile, rows: Seq<ActionRowView>) -> Seq<char> {
    let parts = base_parts(p) + detail_parts(p, spec_actions_for_star(rows, p.star as int));
    if parts.len() == 0 {
        "暂无可由结构化表生成的星级信息"@
    } else {
        text::join(parts, "，"@)
    }
}

/// The critical-hit slow sentence of a tier's detail gives the row's item count before
/// "件道具" and its duration, in seconds, before "秒".
pub proof fn lemma_crit_slow_sentence(p: TierProfile, r: ActionRowView, count: i64, duration: u64)
    requires
        r.action.trigger == "on_crit"@,
        r.action.action == "slow_random"@,
        r.action.count == Some(count),
        r.action.duration == Some(duration),
    ensures
        row_parts(p, r) == seq![
            "暴击减速对手随机"@ + num::int_str(count as int) + "件道具"@ + num::fmt2(duration as nat) + "秒"@,
        ],
{
    reveal_strlit("on_crit");
    reveal_strlit("active_use");
    reveal_strlit("on_freeze_source");
    reveal_strlit("battle_start");
    reveal_strlit("on_charged_hit");
    reveal_strlit("on_attack_hit");
    reveal_strlit("on_heal");
    let t = r.action.trigger;
    assert(t.len() == 7);
    assert("active_use"@.len() == 10 && "on_freeze_source"@.len() == 16 && "battle_start"@.len() == 12
        && "on_charged_hit"@.len() == 14 && "on_attack_hit"@.len() == 13);
    assert(t != "on_heal"@) by {
        assert(t[3] != "on_heal"@[3]);
    }
}

/// A tier with no numbers of its own and one critical-hit slow row reads as that row's
/// sentence: its count before "件道具", its duration before "秒".
pub proof fn lemma_crit_slow_detail(p: TierProfile, r: ActionRowView, count: i64, duration: u64)
    requires
        r.action.trigger == "on_crit"@,
        r.action.action == "slow_random"@,
        r.action.count == Some(count),
        r.action.duration == Some(duration),
        r.action.star == 0,
        p.attack == 0,
        p.interval == 0,
        p.normal_sword == 0,
    ensures
        spec_star_detail_text(p, seq![r]) == "暴击减速对手随机"@ + num::int_str(count as int) + "件道具"@
            + num::fmt2(duration as nat) + "秒"@,
{
    let rows = seq![r];
    assert(rows.drop_last() =~= Seq::<ActionRowView>::empty());
    assert(rows.last() == r);
    let e = Seq::<ActionRowView>::empty();
    assert(spec_actions_for_star(e, p.star as int) == e);
    assert(key_lower(e, r.action, 0) == 0);
    assert(keep_by_key(e, r) =~= seq![r]);
    assert(spec_actions_for_star(rows, p.star as int) == keep_by_key(e, r));
    lemma_crit_slow_sentence(p, r, count, duration);
    assert(detail_parts(p, e) == Seq::<Seq<char>>::empty());
    assert(detail_parts(p, rows) == detail_parts(p, e) + row_parts(p, r));
    assert(detail_parts(p, seq![r]) =~= row_parts(p, r));
    assert(base_parts(p) =~= Seq::<Seq<char>>::empty());
    let parts = base_parts(p) + detail_parts(p, seq![r]);
    assert(parts =~= row_parts(p, r));
}

fn push_text(parts: &mut Vec<String>, s: String)
    ensures
        text::strs(final(parts)@) == text::strs(old(parts)@).push(s@),
{
    parts.push(s);
    assert(text::strs(parts@) =~= text::strs(old(parts)@).push(s@));
}

fn cat2(a: &str, b: &str) -> (r: String)
    ensures
        r@ == a@ + b@,
{
    let mut s = text::string_from(a);
    text::push_str(&mut s, b);
    s
}

fn cat3(a: &str, b: &str, c: &str) -> (r: String)
    ensures
        r@ == a@ + b@ + c@,
{
    let mut s = cat2(a, b);
    text::push_str(&mut s, c);
    s
}

fn cat5(a: &str, b: &str, c: &str, d: &str, e: &str) -> (r: String)
    ensures
        r@ == a@ + b@ + c@ + d@ + e@,
{
    let mut s = cat3(a, b, c);
    text::push_str(&mut s, d);
    text::push_str(&mut s, e);
    s
}

fn cat7(a: &str, b: &str, c: &str, d: &str, e: &str, f: &str, g: &str) -> (r: String)
    ensures
        r@ == a@ + b@ + c@ + d@ + e@ + f@ + g@,
{
    let mut s = cat5(a, b, c, d, e);
    text::push_str(&mut s, f);
    text::push_str(&mut s, g);
    s
}

fn row_parts_exec(p: &TierProfile, r: &ActionRow, parts: &mut Vec<String>)
    ensures
        text::strs(final(parts)@) == text::strs(old(parts)@) + row_parts(*p, r@),
{
    let a = &r.action;
    let t = &a.trigger;
    let n = &a.action;
    let ghost start = text::strs(parts@);
    if text::string_eq_str(t, "active_use") && text::string_eq_str(n, "freezing_normal_weapon_attack") {
        let x = effect_label(r, "freeze_count", whole_exec(a.count));
        let y = effect_label(r, "freeze_duration", qty_exec(a.duration));
        push_text(parts, cat5("冻结对手随机", x.as_str(), "件道具", y.as_str(), "秒"));
    } else if text::string_eq_str(t, "active_use") && text::string_eq_str(n, "charged_healing_weapon_attack") {
        let x = effect_label(r, "charged_sword_cost", None);
        let y = effect_label(r, "charged_damage_multiplier", None);
        let z = effect_label(r, "charged_heal", None);
        push_text(
            parts,
            cat7("蓄力攻击消耗", x.as_str(), "点剑势，造成", y.as_str(), "倍武器攻击力的伤害，生命恢复+", z.as_str(), "点"),
        );
        let u = effect_label(r, "normal_sword", Some(Shown::Whole(p.normal_sword)));
        let v = effect_label(r, "normal_heal", None);
        push_text(
            parts,
            cat5("普通攻击造成等同于武器攻击力的伤害，剑势+", u.as_str(), "点，生命恢复+", v.as_str(), "点"),
        );
    } else if text::string_eq_str(t, "active_use") && text::string_eq_str(n, "charged_sword_control_weapon_attack") {
        let x = effect_label(r, "charged_sword_cost", None);
        let y = effect_label(r, "charged_damage_multiplier", None);
        let z = effect_label(r, "charged_enemy_sword_loss", None);
        let u = effect_label(r, "freeze_count", whole_exec(a.count));
        let v = effect_label(r, "freeze_duration", qty_exec(a.duration));
        let mut s = cat7("蓄力攻击消耗", x.as_str(), "点剑势，造成", y.as_str(), "倍武器攻击力的伤害，对手剑势-", z.as_str(), "点，冻结对手随机");
        text::push_str(&mut s, u.as_str());
        text::push_str(&mut s, "件道具");
        text::push_str(&mut s, v.as_str());
        text::push_str(&mut s, "秒");
        push_text(parts, s);
    } else if text::string_eq_str(t, "on_freeze_source") && text::string_eq_str(n, "add_freeze_attack_stack") {
        let x = effect_label(r, "attack_bonus", qty_exec(a.amount));
        let y = effect_label(r, "max_stacks", whole_exec(a.count));
        push_text(parts, cat5("触发冻结所有武器攻击加成 ", x.as_str(), "，最多叠加", y.as_str(), "次"));
    } else if text::string_eq_str(t, "battle_start") && text::string_eq_str(n, "start_sword") {
        let x = effect_label(r, "start_sword", qty_exec(a.amount));
        push_text(parts, cat2("战斗初始剑势+", x.as_str()));
    } else if text::string_eq_str(t, "on_charged_hit") && text::string_eq_str(n, "sword") {
        let x = show_or_dash(qty_exec(a.amount));
        push_text(parts, cat2("蓄力命中剑势+", x.as_str()));
    } else if text::string_eq_str(t, "on_charged_hit") && text::string_eq_str(n, "freeze_random") {
        let x = show_or_dash(whole_exec(a.count));
        let y = show_or_dash(qty_exec(a.duration));
        push_text(parts, cat5("蓄力命中冻结对手随机", x.as_str(), "件道具", y.as_str(), "秒"));
    } else if text::string_eq_str(t, "on_attack_hit") && text::string_eq_str(n, "enemy_sword") {
        let x = effect_label(r, "enemy_sword_loss", qty_exec(a.amount));
        push_text(parts, cat2("攻击命中对手剑势-", x.as_str()));
    } else if text::string_eq_str(t, "on_heal") && text::string_eq_str(n, "charge_self") {
        let x = effect_label(r, "charge_seconds", qty_exec(a.amount));
        push_text(parts, cat3("受到治疗后本武器充能", x.as_str(), "秒"));
    } else if text::string_eq_str(t, "on_crit") && text::string_eq_str(n, "slow_random") {
        let x = show_or_dash(whole_exec(a.count));
        let y = show_or_dash(qty_exec(a.duration));
        push_text(parts, cat5("暴击减速对手随机", x.as_str(), "件道具", y.as_str(), "秒"));
    } else if text::string_eq_str(t, "on_accelerated") && text::string_eq_str(
        n,
        "add_adjacent_weapon_attack_stacking_if_adjacent_to_context",
    ) {
        let x = show_or_dash(qty_exec(a.amount));
        let y = show_or_dash(whole_exec(a.count));
        push_text(parts, cat5("我方道具被加速时相邻武器攻击加成 ", x.as_str(), "，最多叠加", y.as_str(), "层"));
    } else {
        assert(row_parts(*p, r@) =~= Seq::<Seq<char>>::empty());
    }
    assert(text::strs(parts@) =~= start + row_parts(*p, r@));
}

/// The detail of a star tier (see `spec_star_detail_text`).
pub fn star_detail_text(profile: &TierProfile, rows: &Vec<ActionRow>) -> (r: String)
    ensures
        r@ == spec_star_detail_text(*profile, rows_view(rows@)),
{
    let mut parts: Vec<String> = Vec::new();
    if profile.attack != 0 {
        let x = num::format2(profile.attack);
        push_text(&mut parts, cat2("攻击力 ", x.as_str()));
    }
    if profile.interval != 0 {
        let x = num::format2(profile.interval);
        push_text(&mut parts, cat2("发动间隔 ", x.as_str()));
    }
    if profile.normal_sword != 0 {
        let x = num::int_string(profile.normal_sword);
        push_text(&mut parts, cat2("普攻剑势 ", x.as_str()));
    }
    assert(text::strs(parts@) =~= base_parts(*profile));
    let merged = actions_for_star(rows, profile.star);
    let ghost mv = rows_view(merged@);
    let mut i: usize = 0;
    assert(mv.subrange(0, 0) =~= Seq::<ActionRowView>::empty());
    assert(text::strs(parts@) =~= base_parts(*profile) + detail_parts(*profile, mv.subrange(0, 0)));
    while i < merged.len()
        invariant
            mv == rows_view(merged@),
            i <= merged@.len(),
            text::strs(parts@) == base_parts(*profile) + detail_parts(*profile, mv.subrange(0, i as int)),
        decreases merged@.len() - i,
    {
        assert(mv.subrange(0, i + 1).drop_last() =~= mv.subrange(0, i as int));
        assert(mv.subrange(0, i + 1).last() == merged@[i as int]@);
        row_parts_exec(profile, &merged[i], &mut parts);
        assert(base_parts(*profile) + detail_parts(*profile, mv.subrange(0, i + 1)) =~= base_parts(*profile)
            + detail_parts(*profile, mv.subrange(0, i as int)) + row_parts(*profile, merged@[i as int]@));
        i += 1;
    }
    assert(mv.subrange(0, merged@.len() as int) =~= mv);
    if parts.len() == 0 {
        text::string_from("暂无可由结构化表生成的星级信息")
    } else {
        text::join_strings(&parts, "，")
    }
}

// ---------------------------------------------------------------------------
// Summaries of behaviours
// ---------------------------------------------------------------------------

/// The summary of an active-use behaviour.
pub open spec fn spec_active_use_text(
    action: Seq<char>,
    row: ActionView,
    group: Seq<ActionView>,
    profiles: Seq<TierProfile>,
) -> Seq<char> {
    if action == "freezing_normal_weapon_attack"@ {
        "多重触发"@ + spec_action_values_label(group, ValueField::Amount)
            + "；普通攻击：造成等同于武器攻击力的伤害，剑势+"@ + spec_normal_sword_label(profiles)
            + "点，冻结对手随机"@ + spec_action_values_label(group, ValueField::Count) + "件道具"@
            + spec_action_values_label(group, ValueField::Duration) + "秒"@
    } else if action == "charged_sword_control_weapon_attack"@ {
        "蓄力攻击：消耗剑势造成高额伤害，对手剑势降低，并冻结对手随机道具；剑势不足时发动普通攻击"@
    } else if action == "charged_healing_weapon_attack"@ {
        "蓄力攻击：消耗剑势造成高额伤害并恢复生命；剑势不足时发动普通攻击"@
    } else if action == "freeze_random"@ {
        "发动效果：冻结对手随机"@ + dash_or(whole(row.count)) + "件道具"@ + dash_or(qty(row.duration))
            + "秒"@
    } else if action == "heal"@ {
        "发动效果：治疗"@ + dash_or(qty(row.amount)) + "点生命值"@
    } else if action == "sword"@ {
        "发动效果：剑势+"@ + dash_or(qty(row.amount)) + "点"@
    } else if action == "charge_random"@ {
        "发动效果：充能我方随机道具"@ + dash_or(qty(row.amount)) + "秒"@
    } else if action == "mark_used"@ {
        "发动后标记为已使用"@
    } else {
        "发动效果："@ + action
    }
}

pub fn active_use_text(action: &str, row: &Action, group: &Vec<ActionRow>, profiles: &Vec<TierProfile>) -> (r:
    String)
    ensures
        r@ == spec_active_use_text(action@, row@, group_actions(rows_view(group@)), profiles@),
{
    let n = text::chars_of(action);
    if text::eq_str(&n, "freezing_normal_weapon_attack") {
        let a = action_values_label(group, ValueField::Amount);
        let ns = normal_sword_label(profiles);
        let c = action_values_label(group, ValueField::Count);
        let d = action_values_label(group, ValueField::Duration);
        let mut s = cat5(
            "多重触发",
            a.as_str(),
            "；普通攻击：造成等同于武器攻击力的伤害，剑势+",
            ns.as_str(),
            "点，冻结对手随机",
        );
        text::push_str(&mut s, c.as_str());
        text::push_str(&mut s, "件道具");
        text::push_str(&mut s, d.as_str());
        text::push_str(&mut s, "秒");
        s
    } else if text::eq_str(&n, "charged_sword_control_weapon_attack") {
        text::string_from(
            "蓄力攻击：消耗剑势造成高额伤害，对手剑势降低，并冻结对手随机道具；剑势不足时发动普通攻击",
        )
    } else if text::eq_str(&n, "charged_healing_weapon_attack") {
        text::string_from("蓄力攻击：消耗剑势造成高额伤害并恢复生命；剑势不足时发动普通攻击")
    } else if text::eq_str(&n, "freeze_random") {
        let c = show_or_dash(whole_exec(row.count));
        let d = show_or_dash(qty_exec(row.duration));
        cat5("发动效果：冻结对手随机", c.as_str(), "件道具", d.as_str(), "秒")
    } else if text::eq_str(&n, "heal") {
        let a = show_or_dash(qty_exec(row.amount));
        cat3("发动效果：治疗", a.as_str(), "点生命值")
    } else if text::eq_str(&n, "sword") {
        let a = show_or_dash(qty_exec(row.amount));
        cat3("发动效果：剑势+", a.as_str(), "点")
    } else if text::eq_str(&n, "charge_random") {
        let a = show_or_dash(qty_exec(row.amount));
        cat3("发动效果：充能我方随机道具", a.as_str(), "秒")
    } else if text::eq_str(&n, "mark_used") {
        text::string_from("发动后标记为已使用")
    } else {
        cat2("发动效果：", action)
    }
}

/// The summary of a group of rows with one key, by its first row's trigger and action;
/// `None` for an empty group.
pub open spec fn spec_action_group_text(group: Seq<ActionView>, profiles: Seq<TierProfile>) -> Option<
    Seq<char>,
> {
    if group.len() == 0 {
        None
    } else {
        let f = group[0];
        let t = f.trigger;
        let n = f.action;
        let amount = spec_action_values_label(group, ValueField::Amount);
        let duration = spec_action_values_label(group, ValueField::Duration);
        let count = spec_action_values_label(group, ValueField::Count);
        Some(
            if t == "battle_start"@ && n == "start_sword"@ {
                "战斗初始剑势+"@ + amount + "点"@
            } else if t == "battle_start"@ && n == "accelerate_all_active"@ {
                "战斗初始所有道具加速"@ + duration + "秒"@
            } else if t == "on_normal_hit"@ && n == "add_weapon_attack_stacking"@ {
                "普通攻击命中后：所有武器+"@ + amount + "点攻击力，最多叠加"@ + count + "次"@
            } else if t == "on_attack_hit"@ && n == "enemy_sword"@ {
                "攻击命中时：对手剑势-"@ + amount + "点"@
            } else if t == "on_charged_hit"@ && n == "sword"@ {
                "蓄力攻击命中后：剑势+"@ + amount + "点"@
            } else if t == "on_charged_hit"@ && n == "freeze_random"@ {
                "蓄力攻击命中后：冻结对手随机"@ + count + "件道具"@ + duration + "秒"@
            } else if t == "on_crit"@ && n == "slow_random"@ {
                "暴击时：减速对手随机"@ + count + "件道具"@ + duration + "秒"@
            } else if t == "on_accelerated"@ && n
                == "add_adjacent_weapon_attack_stacking_if_adjacent_to_context"@ {
                "我方道具被加速时：相邻武器+"@ + amount + "点攻击力，最多叠加"@ + count + "层"@
            } else if t == "on_freeze_source"@ && n == "add_freeze_attack_stack"@ {
                "每次触发冻结时：所有武器+"@ + amount + "点攻击力，最多叠加"@ + count + "次"@
            } else if t == "active_use"@ {
                spec_active_use_text(n, f, group, profiles)
            } else {
                spec_trigger_label(t) + "："@ + n + " -> "@ + spec_target_label(f.target)
                    + spec_optional_quantity_text("，数值"@, f.amount) + spec_optional_quantity_text(
                    "，持续"@,
                    f.duration,
                ) + spec_optional_whole_text("，次数"@, f.count) + "（来源："@ + f.source_text + "）"@
            },
        )
    }
}

/// The summary of a group of rows (see `spec_action_group_text`).
pub fn action_group_text(group: &Vec<ActionRow>, profiles: &Vec<TierProfile>) -> (r: Option<String>)
    ensures
        match spec_action_group_text(group_actions(rows_view(group@)), profiles@) {
            Some(t) => r matches Some(s) && s@ == t,
            None => r is None,
        },
{
    if group.len() == 0 {
        return None;
    }
    let f = &group[0].action;
    let t = &f.trigger;
    let n = &f.action;
    let ghost ga = group_actions(rows_view(group@));
    assert(ga[0] == f@);
    if text::string_eq_str(t, "battle_start") && text::string_eq_str(n, "start_sword") {
        let a = action_values_label(group, ValueField::Amount);
        Some(cat3("战斗初始剑势+", a.as_str(), "点"))
    } else if text::string_eq_str(t, "battle_start") && text::string_eq_str(n, "accelerate_all_active") {
        let d = action_values_label(group, ValueField::Duration);
        Some(cat3("战斗初始所有道具加速", d.as_str(), "秒"))
    } else if text::string_eq_str(t, "on_normal_hit") && text::string_eq_str(n, "add_weapon_attack_stacking") {
        let a = action_values_label(group, ValueField::Amount);
        let c = action_values_label(group, ValueField::Count);
        Some(cat5("普通攻击命中后：所有武器+", a.as_str(), "点攻击力，最多叠加", c.as_str(), "次"))
    } else if text::string_eq_str(t, "on_attack_hit") && text::string_eq_str(n, "enemy_sword") {
        let a = action_values_label(group, ValueField::Amount);
        Some(cat3("攻击命中时：对手剑势-", a.as_str(), "点"))
    } else if text::string_eq_str(t, "on_charged_hit") && text::string_eq_str(n, "sword") {
        let a = action_values_label(group, ValueField::Amount);
        Some(cat3("蓄力攻击命中后：剑势+", a.as_str(), "点"))
    } else if text::string_eq_str(t, "on_charged_hit") && text::string_eq_str(n, "freeze_random") {
        let c = action_values_label(group, ValueField::Count);
        let d = action_values_label(group, ValueField::Duration);
        Some(cat5("蓄力攻击命中后：冻结对手随机", c.as_str(), "件道具", d.as_str(), "秒"))
    } else if text::string_eq_str(t, "on_crit") && text::string_eq_str(n, "slow_random") {
        let c = action_values_label(group, ValueField::Count);
        let d = action_values_label(group, ValueField::Duration);
        Some(cat5("暴击时：减速对手随机", c.as_str(), "件道具", d.as_str(), "秒"))
    } else if text::string_eq_str(t, "on_accelerated") && text::string_eq_str(
        n,
        "add_adjacent_weapon_attack_stacking_if_adjacent_to_context",
    ) {
        let a = action_values_label(group, ValueField::Amount);
        let c = action_values_label(group, ValueField::Count);
        Some(cat5("我方道具被加速时：相邻武器+", a.as_str(), "点攻击力，最多叠加", c.as_str(), "层"))
    } else if text::string_eq_str(t, "on_freeze_source") && text::string_eq_str(n, "add_freeze_attack_stack") {
        let a = action_values_label(group, ValueField::Amount);
        let c = action_values_label(group, ValueField::Count);
        Some(cat5("每次触发冻结时：所有武器+", a.as_str(), "点攻击力，最多叠加", c.as_str(), "次"))
    } else if text::string_eq_str(t, "active_use") {
        Some(active_use_text(n.as_str(), f, group, profiles))
    } else {
        let tl = trigger_label(t.as_str());
        let gl = target_label(f.target.as_str());
        let am = optional_quantity_text("，数值", f.amount);
        let du = optional_quantity_text("，持续", f.duration);
        let co = optional_whole_text("，次数", f.count);
        let mut s = cat5(tl.as_str(), "：", n.as_str(), " -> ", gl.as_str());
        text::push_str(&mut s, am.as_str());
        text::push_str(&mut s, du.as_str());
        text::push_str(&mut s, co.as_str());
        text::push_str(&mut s, "（来源：");
        text::push_str(&mut s, f.source_text.as_str());
        text::push_str(&mut s, "）");
        Some(s)
    }
}

// ---------------------------------------------------------------------------
// The generated property text
// ---------------------------------------------------------------------------

/// The order of groups: sort order, then trigger, action and target. (The groups of a key
/// map, in key order and then stably sorted by sort order, come in this order.)
pub open spec fn group_lt(a: ActionView, b: ActionView) -> bool {
    a.sort_order < b.sort_order || (a.sort_order == b.sort_order && (text::str_lt(
        a.trigger,
        b.trigger,
    ) || (a.trigger == b.trigger && (text::str_lt(a.action, b.action) || (a.action == b.action
        && text::str_lt(a.target, b.target))))))
}

/// The first group from `i` on that does not come before `x`'s group.
pub open spec fn group_lower(gs: Seq<Seq<ActionRowView>>, x: ActionView, i: int) -> int
    decreases gs.len() - i,
{
    if i < 0 || i >= gs.len() {
        gs.len() as int
    } else if !group_lt(gs[i][0].action, x) {
        i
    } else {
        group_lower(gs, x, i + 1)
    }
}

pub proof fn lemma_group_lower(gs: Seq<Seq<ActionRowView>>, x: ActionView, i: int)
    requires
        0 <= i <= gs.len(),
    ensures
        i <= group_lower(gs, x, i) <= gs.len(),
    decreases gs.len() - i,
{
    if i < gs.len() && group_lt(gs[i][0].action, x) {
        lemma_group_lower(gs, x, i + 1);
    }
}

/// `x` joins the group of its key, or starts one in its place in group order.
pub open spec fn add_to_groups(gs: Seq<Seq<ActionRowView>>, x: ActionRowView) -> Seq<
    Seq<ActionRowView>,
> {
    let p = group_lower(gs, x.action, 0);
    if 0 <= p < gs.len() && actions::same_key(gs[p][0].action, x.action) {
        gs.update(p, gs[p].push(x))
    } else {
        gs.insert(p, seq![x])
    }
}

/// The rows grouped by key, in group order, each group's rows in their order.
pub open spec fn group_rows(rows: Seq<ActionRowView>) -> Seq<Seq<ActionRowView>>
    decreases rows.len(),
{
    if rows.len() == 0 {
        seq![]
    } else {
        add_to_groups(group_rows(rows.drop_last()), rows.last())
    }
}

pub open spec fn add_unique(parts: Seq<Seq<char>>, t: Seq<char>) -> Seq<Seq<char>> {
    if parts.contains(t) {
        parts
    } else {
        parts.push(t)
    }
}

/// The summaries of the groups, in order, each once.
pub open spec fn group_texts(gs: Seq<Seq<ActionRowView>>, profiles: Seq<TierProfile>) -> Seq<Seq<char>>
    decreases gs.len(),
{
    if gs.len() == 0 {
        seq![]
    } else {
        let acc = group_texts(gs.drop_last(), profiles);
        match spec_action_group_text(group_actions(gs.last()), profiles) {
            Some(t) => add_unique(acc, t),
            None => acc,
        }
    }
}

/// `s` with every leading copy of the non-empty `p` removed.
pub open spec fn strip_prefix_all(s: Seq<char>, p: Seq<char>) -> Seq<char>
    decreases s.len(),
{
    if p.len() > 0 && text::starts_with(s, p) && p.len() <= s.len() {
        strip_prefix_all(s.subrange(p.len() as int, s.len() as int), p)
    } else {
        s
    }
}

/// A charged-hit sword summary followed by a charged-hit freeze summary become one
/// sentence; other summaries stay as they are.
pub open spec fn spec_combine_related_parts(parts: Seq<Seq<char>>, i: int) -> Seq<Seq<char>>
    decreases parts.len() - i,
{
    if i < 0 || i >= parts.len() {
        seq![]
    } else if i + 1 < parts.len() && text::starts_with(parts[i], "蓄力攻击命中后：剑势+"@)
        && text::starts_with(parts[i + 1], "蓄力攻击命中后：冻结"@) {
        seq![parts[i] + "，并"@ + strip_prefix_all(parts[i + 1], "蓄力攻击命中后："@)]
            + spec_combine_related_parts(parts, i + 2)
    } else {
        seq![parts[i]] + spec_combine_related_parts(parts, i + 1)
    }
}

fn strip_prefix_all_exec(s: &[char], p: &[char]) -> (r: Vec<char>)
    ensures
        r@ == strip_prefix_all(s@, p@),
{
    let mut cur: Vec<char> = text::slice_vec(s, 0, s.len());
    assert(cur@ =~= s@);
    while p.len() > 0 && text::starts_with_exec(&cur, p) && p.len() <= cur.len()
        invariant
            strip_prefix_all(cur@, p@) == strip_prefix_all(s@, p@),
        decreases cur@.len(),
    {
        cur = text::slice_vec(&cur, p.len(), cur.len());
    }
    cur
}

/// Joins related summaries (see `spec_combine_related_parts`).
pub fn combine_related_parts(parts: &Vec<String>) -> (r: Vec<String>)
    ensures
        text::strs(r@) == spec_combine_related_parts(text::strs(parts@), 0),
{
    let ghost ps = text::strs(parts@);
    let sword = text::chars_of("蓄力攻击命中后：剑势+");
    let freeze = text::chars_of("蓄力攻击命中后：冻结");
    let head = text::chars_of("蓄力攻击命中后：");
    let mut out: Vec<String> = Vec::new();
    let mut idx: usize = 0;
    assert(text::strs(out@) + spec_combine_related_parts(ps, 0) =~= spec_combine_related_parts(ps, 0));
    while idx < parts.len()
        invariant
            ps == text::strs(parts@),
            sword@ == "蓄力攻击命中后：剑势+"@,
            freeze@ == "蓄力攻击命中后：冻结"@,
            head@ == "蓄力攻击命中后："@,
            idx <= parts@.len(),
            text::strs(out@) + spec_combine_related_parts(ps, idx as int) == spec_combine_related_parts(ps, 0),
        decreases parts@.len() - idx,
    {
        let a = text::chars_of(parts[idx].as_str());
        let ghost before = text::strs(out@);
        if idx + 1 < parts.len() && text::starts_with_exec(&a, &sword) && text::starts_with_exec(
            &text::chars_of(parts[idx + 1].as_str()),
            &freeze,
        ) {
            let b = text::chars_of(parts[idx + 1].as_str());
            let rest = strip_prefix_all_exec(&b, &head);
            let mut s = text::string_from(parts[idx].as_str());
            text::push_str(&mut s, "，并");
            text::push_chars(&mut s, &rest);
            out.push(s);
            assert(text::strs(out@) =~= before.push(ps[idx as int] + "，并"@ + strip_prefix_all(ps[idx + 1], "蓄力攻击命中后："@)));
            assert(text::strs(out@) + spec_combine_related_parts(ps, idx + 2) =~= before
                + spec_combine_related_parts(ps, idx as int));
            idx += 2;
        } else {
            out.push(text::string_from(parts[idx].as_str()));
            assert(text::strs(out@) =~= before.push(ps[idx as int]));
            assert(text::strs(out@) + spec_combine_related_parts(ps, idx + 1) =~= before
                + spec_combine_related_parts(ps, idx as int));
            idx += 1;
        }
    }
    assert(text::strs(out@) + Seq::<Seq<char>>::empty() =~= text::strs(out@));
    out
}

/// An item's own attack and interval as a property text, when no behaviour gives one.
pub open spec fn spec_fallback_properties(attack: u64, interval: u64) -> Seq<char> {
    let parts = (if attack != 0 {
        seq!["攻击力"@ + num::fmt2(attack as nat)]
    } else {
        seq![]
    }) + (if interval != 0 {
        seq!["发动间隔"@ + num::fmt2(interval as nat)]
    } else {
        seq![]
    });
    if parts.len() == 0 {
        "暂无可由结构化表生成的属性信息"@
    } else {
        text::join(parts, "；"@)
    }
}

pub fn fallback_properties(item: &ItemInfo) -> (r: String)
    ensures
        r@ == spec_fallback_properties(item.attack, item.interval),
{
    let ghost expect = (if item.attack != 0 {
        seq!["攻击力"@ + num::fmt2(item.attack as nat)]
    } else {
        seq![]
    }) + (if item.interval != 0 {
        seq!["发动间隔"@ + num::fmt2(item.interval as nat)]
    } else {
        seq![]
    });
    let mut parts: Vec<String> = Vec::new();
    if item.attack != 0 {
        let x = num::format2(item.attack);
        push_text(&mut parts, cat2("攻击力", x.as_str()));
    }
    if item.interval != 0 {
        let x = num::format2(item.interval);
        push_text(&mut parts, cat2("发动间隔", x.as_str()));
    }
    assert(text::strs(parts@) =~= expect);
    if parts.len() == 0 {
        text::string_from("暂无可由结构化表生成的属性信息")
    } else {
        text::join_strings(&parts, "；")
    }
}

pub open spec fn groups_view(gs: Seq<Vec<ActionRow>>) -> Seq<Seq<ActionRowView>> {
    gs.map_values(|g: Vec<ActionRow>| rows_view(g@))
}

fn group_rows_exec(rows: &Vec<ActionRow>) -> (r: Vec<Vec<ActionRow>>)
    ensures
        groups_view(r@) == group_rows(rows_view(rows@)),
{
    let ghost rv = rows_view(rows@);
    let mut gs: Vec<Vec<ActionRow>> = Vec::new();
    let mut i: usize = 0;
    assert(rv.subrange(0, 0) =~= Seq::<ActionRowView>::empty());
    assert(groups_view(gs@) =~= Seq::<Seq<ActionRowView>>::empty());
    while i < rows.len()
        invariant
            rv == rows_view(rows@),
            i <= rows@.len(),
            groups_view(gs@) == group_rows(rv.subrange(0, i as int)),
            forall|j: int| 0 <= j < gs@.len() ==> (#[trigger] gs@[j])@.len() > 0,
        decreases rows@.len() - i,
    {
        assert(rv.subrange(0, i + 1).drop_last() =~= rv.subrange(0, i as int));
        assert(rv.subrange(0, i + 1).last() == rows@[i as int]@);
        let x = rows[i].duplicate();
        let ghost acc = groups_view(gs@);
        let mut p: usize = 0;
        while p < gs.len() && group_before(&gs[p][0].action, &x.action)
            invariant
                acc == groups_view(gs@),
                forall|j: int| 0 <= j < gs@.len() ==> (#[trigger] gs@[j])@.len() > 0,
                p <= gs@.len(),
                group_lower(acc, x@.action, 0) == group_lower(acc, x@.action, p as int),
            decreases gs@.len() - p,
        {
            assert(acc[p as int][0] == gs@[p as int]@[0]@);
            p += 1;
        }
        proof {
            if p < gs@.len() {
                assert(acc[p as int][0] == gs@[p as int]@[0]@);
            }
        }
        assert(p == group_lower(acc, x@.action, 0));
        if p < gs.len() && same_key_exec(&gs[p][0].action, &x.action) {
            assert(acc[p as int][0] == gs@[p as int]@[0]@);
            let mut g: Vec<ActionRow> = Vec::new();
            std::mem::swap(&mut g, &mut gs[p]);
            let ghost gv = rows_view(g@);
            assert(gv == acc[p as int]);
            g.push(x);
            assert(rows_view(g@) =~= gv.push(x@));
            gs.set(p, g);
            assert(groups_view(gs@) =~= acc.update(p as int, acc[p as int].push(x@)));
        } else {
            let mut g: Vec<ActionRow> = Vec::new();
            g.push(x);
            assert(rows_view(g@) =~= seq![x@]);
            gs.insert(p, g);
            assert(groups_view(gs@) =~= acc.insert(p as int, seq![x@]));
        }
        i += 1;
    }
    assert(rv.subrange(0, rows@.len() as int) =~= rv);
    gs
}

fn group_before(a: &Action, b: &Action) -> (r: bool)
    ensures
        r == group_lt(a@, b@),
{
    if a.sort_order != b.sort_order {
        return a.sort_order < b.sort_order;
    }
    let at = text::chars_of(a.trigger.as_str());
    let bt = text::chars_of(b.trigger.as_str());
    if text::str_lt_exec(&at, &bt) {
        return true;
    }
    if !text::eq_chars(&at, &bt) {
        return false;
    }
    let aa = text::chars_of(a.action.as_str());
    let ba = text::chars_of(b.action.as_str());
    if text::str_lt_exec(&aa, &ba) {
        return true;
    }
    if !text::eq_chars(&aa, &ba) {
        return false;
    }
    let ag = text::chars_of(a.target.as_str());
    let bg = text::chars_of(b.target.as_str());
    text::str_lt_exec(&ag, &bg)
}

fn contains_text(parts: &Vec<String>, t: &String) -> (r: bool)
    ensures
        r == text::strs(parts@).contains(t@),
{
    let mut i: usize = 0;
    while i < parts.len()
        invariant
            i <= parts@.len(),
            forall|j: int| 0 <= j < i ==> text::strs(parts@)[j] != t@,
        decreases parts@.len() - i,
    {
        if text::string_eq_str(&parts[i], t.as_str()) {
            assert(text::strs(parts@)[i as int] == t@);
            return true;
        }
        i += 1;
    }
    false
}

/// The property text of an item generated from its rows: the group summaries, each once,
/// with related ones joined, separated by `'；'`; the item's own numbers when there is none.
pub open spec fn spec_generated_properties(
    attack: u64,
    interval: u64,
    profiles: Seq<TierProfile>,
    rows: Seq<ActionRowView>,
) -> Seq<char> {
    let parts = group_texts(group_rows(rows), profiles);
    if parts.len() == 0 {
        spec_fallback_properties(attack, interval)
    } else {
        text::join(spec_combine_related_parts(parts, 0), "；"@)
    }
}

proof fn lemma_group_rows_nonempty(rows: Seq<ActionRowView>)
    ensures
        rows.len() > 0 ==> group_rows(rows).len() > 0,
        forall|j: int| 0 <= j < group_rows(rows).len() ==> (#[trigger] group_rows(rows)[j]).len() > 0,
    decreases rows.len(),
{
    if rows.len() > 0 {
        let gs = group_rows(rows.drop_last());
        let x = rows.last();
        lemma_group_rows_nonempty(rows.drop_last());
        let p = group_lower(gs, x.action, 0);
        lemma_group_lower(gs, x.action, 0);
        let r = add_to_groups(gs, x);
        assert(r == group_rows(rows));
        if 0 <= p < gs.len() && actions::same_key(gs[p][0].action, x.action) {
            assert forall|j: int| 0 <= j < r.len() implies (#[trigger] r[j]).len() > 0 by {
                if j != p {
                    assert(r[j] == gs[j]);
                }
            }
        } else {
            gs.insert_ensures(p, seq![x]);
            assert forall|j: int| 0 <= j < r.len() implies (#[trigger] r[j]).len() > 0 by {
                if j < p {
                    assert(r[j] == gs[j]);
                } else if j > p {
                    assert(r[(j - 1) + 1] == gs[j - 1]);
                }
            }
        }
    }
}

proof fn lemma_group_texts_nonempty(gs: Seq<Seq<ActionRowView>>, profiles: Seq<TierProfile>)
    requires
        gs.len() > 0,
        gs.last().len() > 0,
    ensures
        group_texts(gs, profiles).len() > 0,
{
    let acc = group_texts(gs.drop_last(), profiles);
    let ga = group_actions(gs.last());
    assert(ga.len() > 0);
    match spec_action_group_text(ga, profiles) {
        Some(t) => {
            if acc.contains(t) {
                let k = choose|k: int| 0 <= k < acc.len() && acc[k] == t;
            }
        },
        None => {},
    }
}

/// Without rows, an item's generated property text is its own numbers; with rows, the
/// text is made from the rows' summaries alone (there is at least one), whatever the
/// item's attack and interval are.
pub proof fn lemma_generated_properties_from_rows(
    attack: u64,
    interval: u64,
    attack2: u64,
    interval2: u64,
    profiles: Seq<TierProfile>,
    rows: Seq<ActionRowView>,
)
    ensures
        rows.len() == 0 ==> spec_generated_properties(attack, interval, profiles, rows)
            == spec_fallback_properties(attack, interval),
        rows.len() > 0 ==> group_texts(group_rows(rows), profiles).len() > 0,
        rows.len() > 0 ==> spec_generated_properties(attack, interval, profiles, rows)
            == spec_generated_properties(attack2, interval2, profiles, rows),
{
    if rows.len() > 0 {
        let gs = group_rows(rows);
        lemma_group_rows_nonempty(rows);
        assert(gs.last() == gs[gs.len() - 1]);
        lemma_group_texts_nonempty(gs, profiles);
    } else {
        assert(group_rows(rows) == Seq::<Seq<ActionRowView>>::empty());
    }
}

/// The property text generated from an item's rows (see `spec_generated_properties`).
pub fn generated_properties(item: &ItemInfo, profiles: &Vec<TierProfile>, rows: &Vec<ActionRow>) -> (r:
    String)
    ensures
        r@ == spec_generated_properties(item.attack, item.interval, profiles@, rows_view(rows@)),
{
    let gs = group_rows_exec(rows);
    let ghost gv = groups_view(gs@);
    let mut parts: Vec<String> = Vec::new();
    let mut i: usize = 0;
    assert(gv.subrange(0, 0) =~= Seq::<Seq<ActionRowView>>::empty());
    assert(text::strs(parts@) =~= Seq::<Seq<char>>::empty());
    while i < gs.len()
        invariant
            gv == groups_view(gs@),
            i <= gs@.len(),
            text::strs(parts@) == group_texts(gv.subrange(0, i as int), profiles@),
        decreases gs@.len() - i,
    {
        assert(gv.subrange(0, i + 1).drop_last() =~= gv.subrange(0, i as int));
        assert(gv.subrange(0, i + 1).last() == rows_view(gs@[i as int]@));
        match action_group_text(&gs[i], profiles) {
            Some(t) => {
                if !contains_text(&parts, &t) {
                    push_text(&mut parts, t);
                }
            },
            None => {},
        }
        i += 1;
    }
    assert(gv.subrange(0, gs@.len() as int) =~= gv);
    if parts.len() == 0 {
        return fallback_properties(item);
    }
    let combined = combine_related_parts(&parts);
    text::join_strings(&combined, "；")
}

// ---------------------------------------------------------------------------
// The printed description of an item
// ---------------------------------------------------------------------------

pub struct ItemInfoView {
    pub short: Seq<char>,
    pub full: Seq<char>,
    pub kind_label: Seq<char>,
    pub bag_slots: Seq<char>,
    pub attack: u64,
    pub interval: u64,
    pub tags: Seq<char>,
}

impl View for ItemInfo {
    type V = ItemInfoView;

    open spec fn view(&self) -> ItemInfoView {
        ItemInfoView {
            short: self.short@,
            full: self.full@,
            kind_label: self.kind_label@,
            bag_slots: self.bag_slots@,
            attack: self.attack,
            interval: self.interval,
            tags: self.tags@,
        }
    }
}

pub open spec fn blank_dash(v: Seq<char>) -> Seq<char> {
    if text::trim(v).len() == 0 {
        "-"@
    } else {
        v
    }
}

/// The tier lines of the detailed description.
pub open spec fn tier_lines(profiles: Seq<TierProfile>, rows: Seq<ActionRowView>) -> Seq<Seq<char>> {
    profiles.map_values(
        |p: TierProfile| "- "@ + num::int_str(p.star as int) + "星："@ + spec_star_detail_text(p, rows),
    )
}

/// The description of an item: name and kind; in brief, its generated property text
/// (unless there is none); in detail, its multi-trigger count, short name, bag slots,
/// tags, and each star tier (or, without tiers, its property text).
pub open spec fn spec_equipment_lines(
    item: ItemInfoView,
    profiles: Seq<TierProfile>,
    rows: Seq<ActionRowView>,
    detail: bool,
) -> Seq<Seq<char>> {
    let head = seq!["名称："@ + item.full, "属性："@ + item.kind_label];
    let multi = match least_multi_trigger(rows) {
        Some(v) => if detail {
            seq!["多重触发："@ + num::fmt2(v as nat)]
        } else {
            seq![]
        },
        None => seq![],
    };
    let summary = spec_generated_properties(item.attack, item.interval, profiles, rows);
    let brief = if !detail && summary != "暂无可由结构化表生成的属性信息"@ {
        seq![summary]
    } else {
        seq![]
    };
    let more = if detail {
        seq![
            seq![],
            "缩写："@ + item.short,
            "背包占用："@ + item.bag_slots,
            "关联附属属性："@ + blank_dash(item.tags),
        ] + if profiles.len() > 0 {
            seq![seq![], "星级档位："@] + tier_lines(profiles, rows)
        } else {
            seq![
                seq![],
                "属性详情："@ + spec_generated_properties(item.attack, item.interval, seq![], rows),
            ]
        }
    } else {
        seq![]
    };
    head + multi + brief + more
}

/// The lines that describe an item (see `spec_equipment_lines`).
pub fn equipment_lines(item: &ItemInfo, profiles: &Vec<TierProfile>, rows: &Vec<ActionRow>, detail: bool) -> (r:
    Vec<String>)
    ensures
        text::strs(r@) == spec_equipment_lines(item@, profiles@, rows_view(rows@), detail),
{
    let mut lines: Vec<String> = Vec::new();
    push_text(&mut lines, cat2("名称：", item.full.as_str()));
    push_text(&mut lines, cat2("属性：", item.kind_label.as_str()));
    if detail {
        match multi_trigger_label(rows) {
            Some(m) => push_text(&mut lines, cat2("多重触发：", m.as_str())),
            None => {},
        }
    }
    let ghost after_multi = text::strs(lines@);
    if !detail {
        let summary = generated_properties(item, profiles, rows);
        if !text::string_eq_str(&summary, "暂无可由结构化表生成的属性信息") {
            push_text(&mut lines, summary);
        }
    }
    if detail {
        push_text(&mut lines, String::new());
        push_text(&mut lines, cat2("缩写：", item.short.as_str()));
        push_text(&mut lines, cat2("背包占用：", item.bag_slots.as_str()));
        let tg = empty_as_dash(item.tags.as_str());
        push_text(&mut lines, cat2("关联附属属性：", tg.as_str()));
        if profiles.len() > 0 {
            push_text(&mut lines, String::new());
            push_text(&mut lines, text::string_from("星级档位："));
            let ghost base = text::strs(lines@);
            let mut i: usize = 0;
            while i < profiles.len()
                invariant
                    i <= profiles@.len(),
                    text::strs(lines@) == base + tier_lines(profiles@.subrange(0, i as int), rows_view(rows@)),
                decreases profiles@.len() - i,
            {
                let d = star_detail_text(&profiles[i], rows);
                let st = num::int_string(profiles[i].star);
                let mut l = cat3("- ", st.as_str(), "星：");
                text::push_str(&mut l, d.as_str());
                push_text(&mut lines, l);
                assert(tier_lines(profiles@.subrange(0, i + 1), rows_view(rows@)) =~= tier_lines(
                    profiles@.subrange(0, i as int),
                    rows_view(rows@),
                ).push(
                    "- "@ + num::int_str(profiles@[i as int].star as int) + "星："@ + spec_star_detail_text(
                        profiles@[i as int],
                        rows_view(rows@),
                    ),
                ));
                i += 1;
            }
            assert(profiles@.subrange(0, profiles@.len() as int) =~= profiles@);
        } else {
            push_text(&mut lines, String::new());
            let none: Vec<TierProfile> = Vec::new();
            assert(none@ =~= Seq::<TierProfile>::empty());
            let g = generated_properties(item, &none, rows);
            push_text(&mut lines, cat2("属性详情：", g.as_str()));
        }
    }
    assert(text::strs(lines@) =~= spec_equipment_lines(item@, profiles@, rows_view(rows@), detail));
    lines
}

/// The list shown when a query matches several items.
pub open spec fn spec_candidates_lines(items: Seq<ItemInfoView>) -> Seq<Seq<char>> {
    seq!["找到多件装备，请用更完整的名称或缩写查询："@] + items.map_values(
        |i: ItemInfoView| "- "@ + i.full + "（缩写："@ + i.short + "，类型："@ + i.kind_label + "）"@,
    )
}

pub fn candidates_lines(items: &Vec<ItemInfo>) -> (r: Vec<String>)
    ensures
        text::strs(r@) == spec_candidates_lines(items@.map_values(|i: ItemInfo| i@)),
{
    let ghost iv = items@.map_values(|i: ItemInfo| i@);
    let mut lines: Vec<String> = Vec::new();
    push_text(&mut lines, text::string_from("找到多件装备，请用更完整的名称或缩写查询："));
    let mut k: usize = 0;
    while k < items.len()
        invariant
            iv == items@.map_values(|i: ItemInfo| i@),
            k <= items@.len(),
            text::strs(lines@) == spec_candidates_lines(iv.subrange(0, k as int)),
        decreases items@.len() - k,
    {
        let it = &items[k];
        let mut l = cat5("- ", it.full.as_str(), "（缩写：", it.short.as_str(), "，类型：");
        text::push_str(&mut l, it.kind_label.as_str());
        text::push_str(&mut l, "）");
        push_text(&mut lines, l);
        assert(spec_candidates_lines(iv.subrange(0, k + 1)) =~= spec_candidates_lines(
            iv.subrange(0, k as int),
        ).push("- "@ + iv[k as int].full + "（缩写："@ + iv[k as int].short + "，类型："@ + iv[k as int].kind_label + "）"@));
        k += 1;
    }
    assert(iv.subrange(0, items@.len() as int) =~= iv);
    lines
}

} // verus!

//! Equipment actions: the structured behaviour rows inferred from property texts.
use vstd::prelude::*;
use crate::text;
use crate::num;
use crate::stars;

verus! {

/// One structured behaviour of a piece of equipment at one star tier (tier 0: every tier).
/// Amounts and durations are in thousandths.
#[derive(Clone, Debug)]
pub struct Action {
    pub star: i64,
    pub trigger: String,
    pub action: String,
    pub target: String,
    pub amount: Option<u64>,
    pub duration: Option<u64>,
    pub count: Option<i64>,
    pub source_text: String,
    pub sort_order: i64,
}

/// The value of an [`Action`], its strings as character sequences.
pub struct ActionView {
    pub star: int,
    pub trigger: Seq<char>,
    pub action: Seq<char>,
    pub target: Seq<char>,
    pub amount: Option<u64>,
    pub duration: Option<u64>,
    pub count: Option<i64>,
    pub source_text: Seq<char>,
    pub sort_order: int,
}

impl View for Action {
    type V = ActionView;

    open spec fn view(&self) -> ActionView {
        ActionView {
            star: self.star as int,
            trigger: self.trigger@,
            action: self.action@,
            target: self.target@,
            amount: self.amount,
            duration: self.duration,
            count: self.count,
            source_text: self.source_text@,
            sort_order: self.sort_order as int,
        }
    }
}

/// The views of a sequence of actions.
pub open spec fn views(v: Seq<Action>) -> Seq<ActionView> {
    v.map_values(|a: Action| a@)
}

pub proof fn lemma_views_push(v: Seq<Action>, a: Action)
    ensures
        views(v.push(a)) == views(v).push(a@),
{
    assert(views(v.push(a)) =~= views(v).push(a@));
}

impl Action {
    /// A copy with the same value.
    pub fn duplicate(&self) -> (r: Action)
        ensures
            r@ == self@,
    {
        Action {
            star: self.star,
            trigger: self.trigger.clone(),
            action: self.action.clone(),
            target: self.target.clone(),
            amount: self.amount,
            duration: self.duration,
            count: self.count,
            source_text: self.source_text.clone(),
            sort_order: self.sort_order,
        }
    }
}

/// A quantity read as a count: its whole part (as `f64 as i64` truncates).
pub open spec fn whole(v: Option<u64>) -> Option<i64> {
    match v {
        Some(x) => Some((x / 1000) as i64),
        None => None,
    }
}

pub open spec fn or_opt(a: Option<u64>, b: Option<u64>) -> Option<u64> {
    if a is Some {
        a
    } else {
        b
    }
}

pub open spec fn mk(
    star: int,
    trigger: Seq<char>,
    action: Seq<char>,
    target: Seq<char>,
    amount: Option<u64>,
    duration: Option<u64>,
    count: Option<i64>,
    source_text: Seq<char>,
    sort_order: int,
) -> ActionView {
    ActionView { star, trigger, action, target, amount, duration, count, source_text, sort_order }
}

pub open spec fn has(p: Seq<char>, m: &str) -> bool {
    text::contains(p, m@)
}

pub open spec fn nb(p: Seq<char>, a: &str, b: &str) -> Option<u64> {
    num::number_between(p, a@, b@)
}

/// A normal attack that freezes random enemy items.
pub open spec fn rule_freezing_attack(short: Seq<char>, p: Seq<char>, star: int) -> Seq<ActionView> {
    match text::section_after(p, "普通攻击"@) {
        Some(normal) => if has(normal, "冻结对手随机") && has(normal, "道具") && has(normal, "秒") {
            seq![
                mk(
                    star,
                    "active_use"@,
                    "freezing_normal_weapon_attack"@,
                    "enemy"@,
                    or_opt(nb(p, "多重触发", "；"), Some(1000)),
                    nb(normal, "道具", "秒"),
                    whole(nb(normal, "冻结对手随机", "件")),
                    short,
                    10,
                ),
            ]
        } else {
            seq![]
        },
        None => seq![],
    }
}

/// Stacking weapon attack on normal hits.
pub open spec fn rule_normal_hit_stack(full: Seq<char>, p: Seq<char>, star: int) -> Seq<ActionView> {
    if has(p, "普通攻击命中") && has(p, "所有武器+") && has(p, "攻击力") {
        seq![
            mk(
                star,
                "on_normal_hit"@,
                "add_weapon_attack_stacking"@,
                "self_weapons"@,
                nb(p, "所有武器+", "攻击力"),
                None,
                whole(nb(p, "最多叠加", "次")),
                full,
                10,
            ),
        ]
    } else {
        seq![]
    }
}

/// Stacking weapon attack whenever a freeze is triggered.
pub open spec fn rule_freeze_stack(short: Seq<char>, p: Seq<char>, star: int) -> Seq<ActionView> {
    if has(p, "触发冻结") && has(p, "所有武器+") && has(p, "攻击力") {
        seq![
            mk(
                star,
                "on_freeze_source"@,
                "add_freeze_attack_stack"@,
                "self_weapons"@,
                or_opt(nb(p, "所有武器+", "点"), nb(p, "所有武器+", "攻击力")),
                None,
                whole(nb(p, "最多叠加", "次")),
                short,
                10,
            ),
        ]
    } else {
        seq![]
    }
}

/// Lowering the enemy's sword on hit; `hit` is the marker that names the hit.
pub open spec fn rule_enemy_sword(full: Seq<char>, p: Seq<char>, star: int, hit: Seq<char>) -> Seq<
    ActionView,
> {
    if text::contains(p, hit) && has(p, "对手剑势-") {
        seq![
            mk(
                star,
                "on_attack_hit"@,
                "enemy_sword"@,
                "enemy"@,
                nb(p, "对手剑势-", "点"),
                None,
                None,
                full,
                10,
            ),
        ]
    } else {
        seq![]
    }
}

/// Sword at the start of battle.
pub open spec fn rule_start_sword(full: Seq<char>, p: Seq<char>, star: int) -> Seq<ActionView> {
    if has(p, "战斗初始剑势+") {
        seq![
            mk(
                star,
                "battle_start"@,
                "start_sword"@,
                "self"@,
                nb(p, "战斗初始剑势+", "点"),
                None,
                None,
                full,
                10,
            ),
        ]
    } else {
        seq![]
    }
}

/// The text after a charged hit.
pub open spec fn hit_text(p: Seq<char>) -> Option<Seq<char>> {
    match text::after(p, "蓄力攻击命中后"@) {
        Some(h) => Some(h),
        None => text::after(p, "命中后"@),
    }
}

/// Sword and freezing on a charged hit.
pub open spec fn rule_charged_hit(short: Seq<char>, p: Seq<char>, star: int) -> Seq<ActionView> {
    match hit_text(p) {
        Some(h) => (if has(h, "剑势+") {
            seq![
                mk(
                    star,
                    "on_charged_hit"@,
                    "sword"@,
                    "self"@,
                    nb(h, "剑势+", "点"),
                    None,
                    None,
                    short,
                    10,
                ),
            ]
        } else {
            seq![]
        }) + (if has(h, "冻结") {
            seq![
                mk(
                    star,
                    "on_charged_hit"@,
                    "freeze_random"@,
                    "enemy_active"@,
                    None,
                    nb(h, "道具", "秒"),
                    whole(nb(h, "随机", "件")),
                    short,
                    20,
                ),
            ]
        } else {
            seq![]
        }),
        None => seq![],
    }
}

/// Slowing enemy items on critical hits.
pub open spec fn rule_crit_slow(full: Seq<char>, p: Seq<char>, star: int) -> Seq<ActionView> {
    if has(p, "暴击时") && has(p, "减速") {
        seq![
            mk(
                star,
                "on_crit"@,
                "slow_random"@,
                "enemy_active"@,
                None,
                or_opt(nb(p, "道具", "秒"), nb(p, "减速", "秒")),
                whole(nb(p, "随机", "件")),
                full,
                10,
            ),
        ]
    } else {
        seq![]
    }
}

/// Accelerating every active item at the start of battle.
pub open spec fn rule_start_accelerate(full: Seq<char>, p: Seq<char>, star: int) -> Seq<ActionView> {
    if has(p, "战斗初始所有道具加速") {
        seq![
            mk(
                star,
                "battle_start"@,
                "accelerate_all_active"@,
                "self_active"@,
                None,
                nb(p, "战斗初始所有道具加速", "秒"),
                None,
                full,
                10,
            ),
        ]
    } else {
        seq![]
    }
}

/// Stacking attack of adjacent weapons when an own item is accelerated.
pub open spec fn rule_accelerated_stack(full: Seq<char>, p: Seq<char>, star: int) -> Seq<ActionView> {
    if has(p, "我方道具被加速时") && has(p, "相邻武器+") {
        seq![
            mk(
                star,
                "on_accelerated"@,
                "add_adjacent_weapon_attack_stacking_if_adjacent_to_context"@,
                "self_adjacent_weapons"@,
                nb(p, "相邻武器+", "攻击力"),
                None,
                whole(nb(p, "最多叠加", "层")),
                full,
                10,
            ),
        ]
    } else {
        seq![]
    }
}

/// The actions a property text describes, in rule order; `hit` names the on-hit marker of
/// the enemy-sword rule.
pub open spec fn spec_infer_actions_with(
    short: Seq<char>,
    full: Seq<char>,
    p: Seq<char>,
    star: int,
    hit: Seq<char>,
) -> Seq<ActionView> {
    rule_freezing_attack(short, p, star) + rule_normal_hit_stack(full, p, star) + rule_freeze_stack(
        short,
        p,
        star,
    ) + rule_enemy_sword(full, p, star, hit) + rule_start_sword(full, p, star) + rule_charged_hit(
        short,
        p,
        star,
    ) + rule_crit_slow(full, p, star) + rule_start_accelerate(full, p, star)
        + rule_accelerated_stack(full, p, star)
}

/// The actions a property text describes (enemy sword read after `"攻击命中时"`).
pub open spec fn spec_infer_actions(short: Seq<char>, full: Seq<char>, p: Seq<char>, star: int) -> Seq<
    ActionView,
> {
    spec_infer_actions_with(short, full, p, star, "攻击命中时"@)
}

// ---------------------------------------------------------------------------
// Executable rules
// ---------------------------------------------------------------------------

fn has_exec(p: &[char], m: &str) -> (r: bool)
    ensures
        r == has(p@, m),
{
    let mc = text::chars_of(m);
    text::contains_exec(p, &mc)
}

fn nb_exec(p: &[char], a: &str, b: &str) -> (r: Option<u64>)
    ensures
        r == nb(p@, a, b),
{
    num::number_between_exec(p, a, b)
}

fn whole_exec(v: Option<u64>) -> (r: Option<i64>)
    ensures
        r == whole(v),
{
    match v {
        Some(x) => Some((x / 1000) as i64),
        None => None,
    }
}

fn or_exec(a: Option<u64>, b: Option<u64>) -> (r: Option<u64>)
    ensures
        r == or_opt(a, b),
{
    if a.is_some() {
        a
    } else {
        b
    }
}

fn make(
    star: i64,
    trigger: &str,
    action: &str,
    target: &str,
    amount: Option<u64>,
    duration: Option<u64>,
    count: Option<i64>,
    source_text: &[char],
    sort_order: i64,
) -> (r: Action)
    ensures
        r@ == mk(
            star as int,
            trigger@,
            action@,
            target@,
            amount,
            duration,
            count,
            source_text@,
            sort_order as int,
        ),
{
    Action {
        star,
        trigger: text::string_from(trigger),
        action: text::string_from(action),
        target: text::string_from(target),
        amount,
        duration,
        count,
        source_text: text::string_of(source_text),
        sort_order,
    }
}

/// Appends actions, keeping track of their views.
fn append(out: &mut Vec<Action>, more: Vec<Action>)
    ensures
        views(final(out)@) == views(old(out)@) + views(more@),
{
    let n = more.len();
    let mut i: usize = 0;
    let ghost start = out@;
    assert(more@.subrange(0, 0) =~= Seq::<Action>::empty());
    assert(views(out@) =~= views(start) + views(more@.subrange(0, 0)));
    while i < n
        invariant
            n == more@.len(),
            i <= n,
            views(out@) == views(start) + views(more@.subrange(0, i as int)),
        decreases n - i,
    {
        let a = more[i].duplicate();
        proof {
            lemma_views_push(out@, a);
        }
        out.push(a);
        assert(views(more@.subrange(0, i + 1)) =~= views(more@.subrange(0, i as int)).push(
            more@[i as int]@,
        ));
        assert(views(out@) =~= views(start) + views(more@.subrange(0, i + 1)));
        i += 1;
    }
    assert(more@.subrange(0, n as int) =~= more@);
}

fn exec_freezing_attack(short: &[char], p: &[char], star: i64) -> (r: Vec<Action>)
    ensures
        views(r@) == rule_freezing_attack(short@, p@, star as int),
{
    let mut out: Vec<Action> = Vec::new();
    let marker = text::chars_of("普通攻击");
    if let Some(normal) = text::section_after_exec(p, &marker) {
        if has_exec(&normal, "冻结对手随机") && has_exec(&normal, "道具") && has_exec(&normal, "秒") {
            let a = make(
                star,
                "active_use",
                "freezing_normal_weapon_attack",
                "enemy",
                or_exec(nb_exec(p, "多重触发", "；"), Some(1000)),
                nb_exec(&normal, "道具", "秒"),
                whole_exec(nb_exec(&normal, "冻结对手随机", "件")),
                short,
                10,
            );
            out.push(a);
        }
    }
    assert(views(out@) =~= rule_freezing_attack(short@, p@, star as int));
    out
}

fn exec_normal_hit_stack(full: &[char], p: &[char], star: i64) -> (r: Vec<Action>)
    ensures
        views(r@) == rule_normal_hit_stack(full@, p@, star as int),
{
    let mut out: Vec<Action> = Vec::new();
    if has_exec(p, "普通攻击命中") && has_exec(p, "所有武器+") && has_exec(p, "攻击力") {
        out.push(
            make(
                star,
                "on_normal_hit",
                "add_weapon_attack_stacking",
                "self_weapons",
                nb_exec(p, "所有武器+", "攻击力"),
                None,
                whole_exec(nb_exec(p, "最多叠加", "次")),
                full,
                10,
            ),
        );
    }
    assert(views(out@) =~= rule_normal_hit_stack(full@, p@, star as int));
    out
}

fn exec_freeze_stack(short: &[char], p: &[char], star: i64) -> (r: Vec<Action>)
    ensures
        views(r@) == rule_freeze_stack(short@, p@, star as int),
{
    let mut out: Vec<Action> = Vec::new();
    if has_exec(p, "触发冻结") && has_exec(p, "所有武器+") && has_exec(p, "攻击力") {
        out.push(
            make(
                star,
                "on_freeze_source",
                "add_freeze_attack_stack",
                "self_weapons",
                or_exec(nb_exec(p, "所有武器+", "点"), nb_exec(p, "所有武器+", "攻击力")),
                None,
                whole_exec(nb_exec(p, "最多叠加", "次")),
                short,
                10,
            ),
        );
    }
    assert(views(out@) =~= rule_freeze_stack(short@, p@, star as int));
    out
}

fn exec_enemy_sword(full: &[char], p: &[char], star: i64, hit: &str) -> (r: Vec<Action>)
    ensures
        views(r@) == rule_enemy_sword(full@, p@, star as int, hit@),
{
    let mut out: Vec<Action> = Vec::new();
    if has_exec(p, hit) && has_exec(p, "对手剑势-") {
        out.push(
            make(
                star,
                "on_attack_hit",
                "enemy_sword",
                "enemy",
                nb_exec(p, "对手剑势-", "点"),
                None,
                None,
                full,
                10,
            ),
        );
    }
    assert(views(out@) =~= rule_enemy_sword(full@, p@, star as int, hit@));
    out
}

fn exec_start_sword(full: &[char], p: &[char], star: i64) -> (r: Vec<Action>)
    ensures
        views(r@) == rule_start_sword(full@, p@, star as int),
{
    let mut out: Vec<Action> = Vec::new();
    if has_exec(p, "战斗初始剑势+") {
        out.push(
            make(
                star,
                "battle_start",
                "start_sword",
                "self",
                nb_exec(p, "战斗初始剑势+", "点"),
                None,
                None,
                full,
                10,
            ),
        );
    }
    assert(views(out@) =~= rule_start_sword(full@, p@, star as int));
    out
}

fn exec_charged_hit(short: &[char], p: &[char], star: i64) -> (r: Vec<Action>)
    ensures
        views(r@) == rule_charged_hit(short@, p@, star as int),
{
    let mut out: Vec<Action> = Vec::new();
    let m1 = text::chars_of("蓄力攻击命中后");
    let m2 = text::chars_of("命中后");
    let h = match text::after_exec(p, &m1) {
        Some(h) => Some(h),
        None => text::after_exec(p, &m2),
    };
    if let Some(h) = h {
        if has_exec(&h, "剑势+") {
            out.push(
                make(
                    star,
                    "on_charged_hit",
                    "sword",
                    "self",
                    nb_exec(&h, "剑势+", "点"),
                    None,
                    None,
                    short,
                    10,
                ),
            );
        }
        if has_exec(&h, "冻结") {
            out.push(
                make(
                    star,
                    "on_charged_hit",
                    "freeze_random",
                    "enemy_active",
                    None,
                    nb_exec(&h, "道具", "秒"),
                    whole_exec(nb_exec(&h, "随机", "件")),
                    short,
                    20,
                ),
            );
        }
    }
    assert(views(out@) =~= rule_charged_hit(short@, p@, star as int));
    out
}

fn exec_crit_slow(full: &[char], p: &[char], star: i64) -> (r: Vec<Action>)
    ensures
        views(r@) == rule_crit_slow(full@, p@, star as int),
{
    let mut out: Vec<Action> = Vec::new();
    if has_exec(p, "暴击时") && has_exec(p, "减速") {
        out.push(
            make(
                star,
                "on_crit",
                "slow_random",
                "enemy_active",
                None,
                or_exec(nb_exec(p, "道具", "秒"), nb_exec(p, "减速", "秒")),
                whole_exec(nb_exec(p, "随机", "件")),
                full,
                10,
            ),
        );
    }
    assert(views(out@) =~= rule_crit_slow(full@, p@, star as int));
    out
}

fn exec_start_accelerate(full: &[char], p: &[char], star: i64) -> (r: Vec<Action>)
    ensures
        views(r@) == rule_start_accelerate(full@, p@, star as int),
{
    let mut out: Vec<Action> = Vec::new();
    if has_exec(p, "战斗初始所有道具加速") {
        out.push(
            make(
                star,
                "battle_start",
                "accelerate_all_active",
                "self_active",
                None,
                nb_exec(p, "战斗初始所有道具加速", "秒"),
                None,
                full,
                10,
            ),
        );
    }
    assert(views(out@) =~= rule_start_accelerate(full@, p@, star as int));
    out
}

fn exec_accelerated_stack(full: &[char], p: &[char], star: i64) -> (r: Vec<Action>)
    ensures
        views(r@) == rule_accelerated_stack(full@, p@, star as int),
{
    let mut out: Vec<Action> = Vec::new();
    if has_exec(p, "我方道具被加速时") && has_exec(p, "相邻武器+") {
        out.push(
            make(
                star,
                "on_accelerated",
                "add_adjacent_weapon_attack_stacking_if_adjacent_to_context",
                "self_adjacent_weapons",
                nb_exec(p, "相邻武器+", "攻击力"),
                None,
                whole_exec(nb_exec(p, "最多叠加", "层")),
                full,
                10,
            ),
        );
    }
    assert(views(out@) =~= rule_accelerated_stack(full@, p@, star as int));
    out
}

fn infer_actions_with(short: &[char], full: &[char], p: &[char], star: i64, hit: &str) -> (r: Vec<
    Action,
>)
    ensures
        views(r@) == spec_infer_actions_with(short@, full@, p@, star as int, hit@),
{
    let mut out: Vec<Action> = Vec::new();
    assert(views(out@) =~= Seq::<ActionView>::empty());
    append(&mut out, exec_freezing_attack(short, p, star));
    append(&mut out, exec_normal_hit_stack(full, p, star));
    append(&mut out, exec_freeze_stack(short, p, star));
    append(&mut out, exec_enemy_sword(full, p, star, hit));
    append(&mut out, exec_start_sword(full, p, star));
    append(&mut out, exec_charged_hit(short, p, star));
    append(&mut out, exec_crit_slow(full, p, star));
    append(&mut out, exec_start_accelerate(full, p, star));
    append(&mut out, exec_accelerated_stack(full, p, star));
    assert(views(out@) =~= spec_infer_actions_with(short@, full@, p@, star as int, hit@));
    out
}

/// The actions that a property text describes for star tier `star` (0 for every tier):
/// one per rule whose markers the text holds, in rule order, with the numbers the text
/// writes between each rule's markers.
pub fn infer_actions(short: &str, full: &str, properties: &str, star: i64) -> (r: Vec<Action>)
    ensures
        views(r@) == spec_infer_actions(short@, full@, properties@, star as int),
{
    let s = text::chars_of(short);
    let f = text::chars_of(full);
    let p = text::chars_of(properties);
    infer_actions_with(&s, &f, &p, star, "攻击命中时")
}

// ---------------------------------------------------------------------------
// Keys, merging and ordering
// ---------------------------------------------------------------------------

/// Two actions describe the same behaviour slot: trigger, action, target and sort order.
pub open spec fn same_key(a: ActionView, b: ActionView) -> bool {
    a.trigger == b.trigger && a.action == b.action && a.target == b.target && a.sort_order
        == b.sort_order
}

/// The first position in `acc` holding an action with the key of `x`.
pub open spec fn key_pos(acc: Seq<ActionView>, x: ActionView) -> Option<int>
    decreases acc.len(),
{
    if acc.len() == 0 {
        None
    } else {
        match key_pos(acc.drop_last(), x) {
            Some(i) => Some(i),
            None => if same_key(acc.last(), x) {
                Some(acc.len() - 1)
            } else {
                None
            },
        }
    }
}

/// `x` replaces the first action with its key, or is appended.
pub open spec fn merge_one(acc: Seq<ActionView>, x: ActionView) -> Seq<ActionView> {
    match key_pos(acc, x) {
        Some(i) => acc.update(i, x),
        None => acc.push(x),
    }
}

/// `x`'s amount, duration, count and source text go to the first action with its key,
/// or `x` is appended.
pub open spec fn refresh_one(acc: Seq<ActionView>, x: ActionView) -> Seq<ActionView> {
    match key_pos(acc, x) {
        Some(i) => acc.update(
            i,
            ActionView {
                amount: x.amount,
                duration: x.duration,
                count: x.count,
                source_text: x.source_text,
                ..acc[i]
            },
        ),
        None => acc.push(x),
    }
}

pub open spec fn merge_all(acc: Seq<ActionView>, xs: Seq<ActionView>) -> Seq<ActionView>
    decreases xs.len(),
{
    if xs.len() == 0 {
        acc
    } else {
        merge_one(merge_all(acc, xs.drop_last()), xs.last())
    }
}

pub open spec fn refresh_all(acc: Seq<ActionView>, xs: Seq<ActionView>) -> Seq<ActionView>
    decreases xs.len(),
{
    if xs.len() == 0 {
        acc
    } else {
        refresh_one(refresh_all(acc, xs.drop_last()), xs.last())
    }
}

/// The order actions are written in: by star, then sort order, then trigger.
pub open spec fn sorts_before(a: ActionView, b: ActionView) -> bool {
    a.star < b.star || (a.star == b.star && (a.sort_order < b.sort_order || (a.sort_order
        == b.sort_order && text::str_lt(a.trigger, b.trigger))))
}

/// The position where a stable sort places `x` among the sorted `acc`: after every
/// action that `x` does not sort before.
pub open spec fn insert_pos(acc: Seq<ActionView>, x: ActionView) -> int
    decreases acc.len(),
{
    if acc.len() == 0 {
        0
    } else if sorts_before(x, acc.last()) {
        insert_pos(acc.drop_last(), x)
    } else {
        acc.len() as int
    }
}

/// A stable sort by `sorts_before`.
pub open spec fn sorted_actions(xs: Seq<ActionView>) -> Seq<ActionView>
    decreases xs.len(),
{
    if xs.len() == 0 {
        seq![]
    } else {
        let acc = sorted_actions(xs.drop_last());
        acc.insert(insert_pos(acc, xs.last()), xs.last())
    }
}

proof fn lemma_key_pos(acc: Seq<ActionView>, x: ActionView)
    ensures
        key_pos(acc, x) matches Some(i) ==> 0 <= i < acc.len() && same_key(acc[i], x) && (forall|
            j: int,
        | 0 <= j < i ==> !same_key(#[trigger] acc[j], x)),
        key_pos(acc, x) is None ==> forall|j: int| 0 <= j < acc.len() ==> !same_key(#[trigger] acc[j], x),
    decreases acc.len(),
{
    if acc.len() > 0 {
        lemma_key_pos(acc.drop_last(), x);
        assert forall|j: int| 0 <= j < acc.len() - 1 implies acc[j] == acc.drop_last()[j] by {}
    }
}

proof fn lemma_insert_pos(acc: Seq<ActionView>, x: ActionView)
    ensures
        0 <= insert_pos(acc, x) <= acc.len(),
    decreases acc.len(),
{
    if acc.len() > 0 {
        lemma_insert_pos(acc.drop_last(), x);
    }
}

fn same_key_exec(a: &Action, b: &Action) -> (r: bool)
    ensures
        r == same_key(a@, b@),
{
    let at = text::chars_of(a.trigger.as_str());
    let bt = text::chars_of(b.trigger.as_str());
    let aa = text::chars_of(a.action.as_str());
    let ba = text::chars_of(b.action.as_str());
    let ag = text::chars_of(a.target.as_str());
    let bg = text::chars_of(b.target.as_str());
    text::eq_chars(&at, &bt) && text::eq_chars(&aa, &ba) && text::eq_chars(&ag, &bg) && a.sort_order
        == b.sort_order
}

fn key_pos_exec(acc: &Vec<Action>, x: &Action) -> (r: Option<usize>)
    ensures
        r matches Some(i) ==> key_pos(views(acc@), x@) == Some(i as int),
        r is None ==> key_pos(views(acc@), x@) is None,
{
    let mut i: usize = 0;
    while i < acc.len()
        invariant
            i <= acc@.len(),
            forall|j: int| 0 <= j < i ==> !same_key(#[trigger] views(acc@)[j], x@),
        decreases acc@.len() - i,
    {
        if same_key_exec(&acc[i], x) {
            proof {
                lemma_key_pos(views(acc@), x@);
                let k = key_pos(views(acc@), x@);
                if k is None {
                    assert(!same_key(views(acc@)[i as int], x@));
                } else {
                    let kk = k->0;
                    if kk < i {
                        assert(!same_key(views(acc@)[kk], x@));
                    } else if kk > i {
                        assert(!same_key(views(acc@)[i as int], x@));
                    }
                }
            }
            return Some(i);
        }
        i += 1;
    }
    proof {
        lemma_key_pos(views(acc@), x@);
        let k = key_pos(views(acc@), x@);
        if k is Some {
            assert(!same_key(views(acc@)[k->0], x@));
        }
    }
    None
}

fn sorts_before_exec(a: &Action, b: &Action) -> (r: bool)
    ensures
        r == sorts_before(a@, b@),
{
    if a.star != b.star {
        return a.star < b.star;
    }
    if a.sort_order != b.sort_order {
        return a.sort_order < b.sort_order;
    }
    let at = text::chars_of(a.trigger.as_str());
    let bt = text::chars_of(b.trigger.as_str());
    text::str_lt_exec(&at, &bt)
}

/// Sorts actions by star, sort order and trigger, keeping the order of ties.
pub fn sort_actions(xs: Vec<Action>) -> (r: Vec<Action>)
    ensures
        views(r@) == sorted_actions(views(xs@)),
{
    let mut out: Vec<Action> = Vec::new();
    let mut k: usize = 0;
    assert(views(xs@).subrange(0, 0) =~= Seq::<ActionView>::empty());
    assert(views(out@) =~= sorted_actions(views(xs@).subrange(0, 0)));
    while k < xs.len()
        invariant
            k <= xs@.len(),
            views(out@) == sorted_actions(views(xs@).subrange(0, k as int)),
        decreases xs@.len() - k,
    {
        let x = xs[k].duplicate();
        let ghost acc = views(out@);
        let ghost pre = views(xs@).subrange(0, k + 1);
        assert(pre.drop_last() =~= views(xs@).subrange(0, k as int));
        assert(pre.last() == x@);
        let mut pos = out.len();
        assert(acc.subrange(0, pos as int) =~= acc);
        while pos > 0 && sorts_before_exec(&x, &out[pos - 1])
            invariant
                pos <= out@.len(),
                acc == views(out@),
                insert_pos(acc, x@) == insert_pos(acc.subrange(0, pos as int), x@),
            decreases pos,
        {
            assert(acc.subrange(0, pos as int).drop_last() =~= acc.subrange(0, pos - 1));
            pos -= 1;
        }
        proof {
            if pos > 0 {
                assert(!sorts_before(x@, acc.subrange(0, pos as int).last()));
            } else {
                assert(acc.subrange(0, 0) =~= Seq::<ActionView>::empty());
            }
        }
        let ghost before = out@;
        out.insert(pos, x);
        assert(views(out@) =~= acc.insert(pos as int, x@));
        k += 1;
    }
    assert(views(xs@).subrange(0, xs@.len() as int) =~= views(xs@));
    out
}

/// Merges `incoming` into `actions`: each incoming action replaces the first with its key,
/// or is appended; the result is sorted by star, sort order and trigger.
pub fn merge_actions(actions: &mut Vec<Action>, incoming: Vec<Action>)
    ensures
        views(final(actions)@) == sorted_actions(merge_all(views(old(actions)@), views(incoming@))),
{
    let mut k: usize = 0;
    let ghost start = views(actions@);
    assert(views(incoming@).subrange(0, 0) =~= Seq::<ActionView>::empty());
    while k < incoming.len()
        invariant
            k <= incoming@.len(),
            views(actions@) == merge_all(start, views(incoming@).subrange(0, k as int)),
        decreases incoming@.len() - k,
    {
        let x = incoming[k].duplicate();
        let ghost pre = views(incoming@).subrange(0, k + 1);
        assert(pre.drop_last() =~= views(incoming@).subrange(0, k as int));
        match key_pos_exec(actions, &x) {
            Some(i) => {
                proof {
                    lemma_key_pos(views(actions@), x@);
                }
                actions.set(i, x);
                assert(views(actions@) =~= merge_all(start, pre));
            },
            None => {
                proof {
                    lemma_views_push(actions@, x);
                }
                actions.push(x);
            },
        }
        k += 1;
    }
    assert(views(incoming@).subrange(0, incoming@.len() as int) =~= views(incoming@));
    let mut all: Vec<Action> = Vec::new();
    std::mem::swap(&mut all, actions);
    *actions = sort_actions(all);
}

/// Merges freshly inferred actions into `actions`: each takes the amount, duration, count
/// and source text to the first action with its key, or is appended; the result is sorted
/// by star, sort order and trigger.
pub fn merge_inferred_actions(actions: &mut Vec<Action>, inferred: Vec<Action>)
    ensures
        views(final(actions)@) == sorted_actions(refresh_all(views(old(actions)@), views(inferred@))),
{
    let mut k: usize = 0;
    let ghost start = views(actions@);
    assert(views(inferred@).subrange(0, 0) =~= Seq::<ActionView>::empty());
    while k < inferred.len()
        invariant
            k <= inferred@.len(),
            views(actions@) == refresh_all(start, views(inferred@).subrange(0, k as int)),
        decreases inferred@.len() - k,
    {
        let x = inferred[k].duplicate();
        let ghost pre = views(inferred@).subrange(0, k + 1);
        assert(pre.drop_last() =~= views(inferred@).subrange(0, k as int));
        match key_pos_exec(actions, &x) {
            Some(i) => {
                proof {
                    lemma_key_pos(views(actions@), x@);
                }
                let old_a = actions[i].duplicate();
                let updated = Action {
                    amount: x.amount,
                    duration: x.duration,
                    count: x.count,
                    source_text: x.source_text,
                    ..old_a
                };
                actions.set(i, updated);
                assert(views(actions@) =~= refresh_all(start, pre));
            },
            None => {
                proof {
                    lemma_views_push(actions@, x);
                }
                actions.push(x);
            },
        }
        k += 1;
    }
    assert(views(inferred@).subrange(0, inferred@.len() as int) =~= views(inferred@));
    let mut all: Vec<Action> = Vec::new();
    std::mem::swap(&mut all, actions);
    *actions = sort_actions(all);
}

// ---------------------------------------------------------------------------
// Actions per star tier
// ---------------------------------------------------------------------------

/// The actions each of the four star tiers reads from the text, tiers 1 to 4 in order.
pub open spec fn tier_actions(short: Seq<char>, full: Seq<char>, p: Seq<char>, hit: Seq<char>) -> Seq<
    Seq<ActionView>,
> {
    Seq::new(
        4,
        |k: int|
            spec_infer_actions_with(
                short,
                full,
                stars::spec_properties_for_star(p, (k + 1) as nat),
                k + 1,
                hit,
            ),
    )
}

/// The actions of a piece of equipment: tier 0 when its text has no star tiers, else
/// those of tiers 1 to 4, one tier after another.
pub open spec fn spec_infer_actions_for_equipment(
    short: Seq<char>,
    full: Seq<char>,
    p: Seq<char>,
    tiered: bool,
) -> Seq<ActionView> {
    if !tiered {
        spec_infer_actions(short, full, p, 0)
    } else {
        let t = tier_actions(short, full, p, "攻击命中时"@);
        t[0] + t[1] + t[2] + t[3]
    }
}

pub open spec fn with_star(xs: Seq<ActionView>, star: int) -> Seq<ActionView> {
    xs.map_values(|a: ActionView| ActionView { star: star, ..a })
}

/// The actions of star tier `star`, in order.
pub open spec fn of_star(xs: Seq<ActionView>, star: int) -> Seq<ActionView>
    decreases xs.len(),
{
    if xs.len() == 0 {
        seq![]
    } else if xs.last().star == star {
        of_star(xs.drop_last(), star).push(xs.last())
    } else {
        of_star(xs.drop_last(), star)
    }
}

/// Copies of the actions.
pub fn copy_actions(xs: &Vec<Action>) -> (r: Vec<Action>)
    ensures
        views(r@) == views(xs@),
{
    let mut out: Vec<Action> = Vec::new();
    append(&mut out, copy_each(xs));
    assert(views(out@) =~= views(xs@));
    out
}

fn copy_each(xs: &Vec<Action>) -> (r: Vec<Action>)
    ensures
        views(r@) == views(xs@),
{
    let mut out: Vec<Action> = Vec::new();
    let mut i: usize = 0;
    while i < xs.len()
        invariant
            i <= xs@.len(),
            views(out@) == views(xs@.subrange(0, i as int)),
        decreases xs@.len() - i,
    {
        let a = xs[i].duplicate();
        proof {
            lemma_views_push(out@, a);
        }
        out.push(a);
        assert(views(xs@.subrange(0, i + 1)) =~= views(xs@.subrange(0, i as int)).push(xs@[i as int]@));
        i += 1;
    }
    assert(xs@.subrange(0, xs@.len() as int) =~= xs@);
    out
}

/// Copies of the actions, each set to star tier `star`.
pub fn actions_with_star(xs: &Vec<Action>, star: i64) -> (r: Vec<Action>)
    ensures
        views(r@) == with_star(views(xs@), star as int),
{
    let mut out: Vec<Action> = Vec::new();
    let mut i: usize = 0;
    while i < xs.len()
        invariant
            i <= xs@.len(),
            views(out@) == with_star(views(xs@.subrange(0, i as int)), star as int),
        decreases xs@.len() - i,
    {
        let mut a = xs[i].duplicate();
        a.star = star;
        proof {
            lemma_views_push(out@, a);
        }
        out.push(a);
        assert(with_star(views(xs@.subrange(0, i + 1)), star as int) =~= with_star(
            views(xs@.subrange(0, i as int)),
            star as int,
        ).push(a@));
        i += 1;
    }
    assert(xs@.subrange(0, xs@.len() as int) =~= xs@);
    out
}

/// Copies of the actions of star tier `star`, in order.
pub fn actions_of_star(xs: &Vec<Action>, star: i64) -> (r: Vec<Action>)
    ensures
        views(r@) == of_star(views(xs@), star as int),
{
    let mut out: Vec<Action> = Vec::new();
    let mut i: usize = 0;
    while i < xs.len()
        invariant
            i <= xs@.len(),
            views(out@) == of_star(views(xs@.subrange(0, i as int)), star as int),
        decreases xs@.len() - i,
    {
        let ghost pre = views(xs@.subrange(0, i + 1));
        assert(pre.drop_last() =~= views(xs@.subrange(0, i as int)));
        if xs[i].star == star {
            let a = xs[i].duplicate();
            proof {
                lemma_views_push(out@, a);
            }
            out.push(a);
        }
        assert(of_star(pre, star as int) =~= views(out@));
        i += 1;
    }
    assert(xs@.subrange(0, xs@.len() as int) =~= xs@);
    out
}

fn tier_actions_exec(short: &[char], full: &[char], p: &[char], hit: &str) -> (r: Vec<Vec<Action>>)
    ensures
        r@.len() == 4,
        forall|k: int| 0 <= k < 4 ==> views(#[trigger] r@[k]@) == tier_actions(short@, full@, p@, hit@)[k],
{
    let mut out: Vec<Vec<Action>> = Vec::new();
    let mut star: u64 = 1;
    while star <= 4
        invariant
            1 <= star <= 5,
            out@.len() == star - 1,
            forall|k: int| 0 <= k < out@.len() ==> views(#[trigger] out@[k]@) == tier_actions(short@, full@, p@, hit@)[k],
        decreases 5 - star,
    {
        let tier = stars::properties_for_star_chars(p, star);
        out.push(infer_actions_with(short, full, &tier, star as i64, hit));
        star += 1;
    }
    out
}

/// The actions of each star tier 1 to 4 (with the enemy-sword rule read after
/// `"攻击命中"`), tier 1 first.
pub fn infer_star_actions(short: &str, full: &str, properties: &str) -> (r: Vec<Vec<Action>>)
    ensures
        r@.len() == 4,
        forall|k: int| 0 <= k < 4 ==> views(#[trigger] r@[k]@) == tier_actions(short@, full@, properties@, "攻击命中"@)[k],
{
    let s = text::chars_of(short);
    let f = text::chars_of(full);
    let p = text::chars_of(properties);
    tier_actions_exec(&s, &f, &p, "攻击命中")
}

/// The actions of a piece of equipment: those of tier 0 when it has no star tiers, else
/// those of tiers 1 to 4 in turn.
pub fn infer_actions_for_equipment(short: &str, full: &str, properties: &str, tiered: bool) -> (r: Vec<
    Action,
>)
    ensures
        views(r@) == spec_infer_actions_for_equipment(short@, full@, properties@, tiered),
{
    if !tiered {
        return infer_actions(short, full, properties, 0);
    }
    let s = text::chars_of(short);
    let f = text::chars_of(full);
    let p = text::chars_of(properties);
    let tiers = tier_actions_exec(&s, &f, &p, "攻击命中时");
    let mut out: Vec<Action> = Vec::new();
    assert(views(out@) =~= Seq::<ActionView>::empty());
    append(&mut out, copy_actions(&tiers[0]));
    append(&mut out, copy_actions(&tiers[1]));
    append(&mut out, copy_actions(&tiers[2]));
    append(&mut out, copy_actions(&tiers[3]));
    let ghost t = tier_actions(short@, full@, properties@, "攻击命中时"@);
    assert(views(out@) =~= t[0] + t[1] + t[2] + t[3]);
    out
}

/// The actions of one star tier when star actions are completed: the tier-0 templates set
/// to the tier, refreshed by the actions inferred for it.
pub fn complete_star_tier(templates: &Vec<Action>, inferred: Vec<Action>, star: i64) -> (r: Vec<
    Action,
>)
    ensures
        views(r@) == sorted_actions(refresh_all(with_star(views(templates@), star as int), views(inferred@))),
{
    let mut actions = actions_with_star(templates, star);
    merge_inferred_actions(&mut actions, inferred);
    actions
}

/// The actions written to the database for an item: the stored tier-0 actions merged with
/// the inferred ones (tier 4's reading when the item has tiers); for a tiered item, these
/// are followed by a copy for each tier 1 to 4 merged with that tier's inferred actions.
pub open spec fn spec_actions_for_database(
    generic: Seq<ActionView>,
    item_actions: Seq<ActionView>,
    short: Seq<char>,
    full: Seq<char>,
    p: Seq<char>,
    tiered: bool,
) -> Seq<ActionView> {
    let inferred_generic = if !tiered {
        item_actions
    } else {
        spec_infer_actions(short, full, stars::spec_properties_for_star(p, 4), 0)
    };
    let g = sorted_actions(merge_all(generic, inferred_generic));
    if !tiered {
        g
    } else {
        g + sorted_actions(merge_all(with_star(g, 1), of_star(item_actions, 1))) + sorted_actions(
            merge_all(with_star(g, 2), of_star(item_actions, 2)),
        ) + sorted_actions(merge_all(with_star(g, 3), of_star(item_actions, 3))) + sorted_actions(
            merge_all(with_star(g, 4), of_star(item_actions, 4)),
        )
    }
}

pub fn actions_for_database(
    generic: Vec<Action>,
    item_actions: &Vec<Action>,
    short: &str,
    full: &str,
    properties: &str,
    tiered: bool,
) -> (r: Vec<Action>)
    ensures
        views(r@) == spec_actions_for_database(
            views(generic@),
            views(item_actions@),
            short@,
            full@,
            properties@,
            tiered,
        ),
{
    let mut generic = generic;
    let inferred_generic = if !tiered {
        copy_actions(item_actions)
    } else {
        let p = text::chars_of(properties);
        let p4 = stars::properties_for_star_chars(&p, 4);
        let s4 = text::string_of(&p4);
        infer_actions(short, full, s4.as_str(), 0)
    };
    merge_actions(&mut generic, inferred_generic);
    if !tiered {
        return generic;
    }
    let mut out = copy_actions(&generic);
    let ghost g = views(generic@);
    let mut star: i64 = 1;
    let ghost mut acc: Seq<ActionView> = g;
    while star <= 4
        invariant
            1 <= star <= 5,
            g == views(generic@),
            views(out@) == acc,
            star == 1 ==> acc == g,
            star == 2 ==> acc == g + sorted_actions(merge_all(with_star(g, 1), of_star(views(item_actions@), 1))),
            star == 3 ==> acc == g + sorted_actions(merge_all(with_star(g, 1), of_star(views(item_actions@), 1)))
                + sorted_actions(merge_all(with_star(g, 2), of_star(views(item_actions@), 2))),
            star == 4 ==> acc == g + sorted_actions(merge_all(with_star(g, 1), of_star(views(item_actions@), 1)))
                + sorted_actions(merge_all(with_star(g, 2), of_star(views(item_actions@), 2)))
                + sorted_actions(merge_all(with_star(g, 3), of_star(views(item_actions@), 3))),
            star == 5 ==> acc == g + sorted_actions(merge_all(with_star(g, 1), of_star(views(item_actions@), 1)))
                + sorted_actions(merge_all(with_star(g, 2), of_star(views(item_actions@), 2)))
                + sorted_actions(merge_all(with_star(g, 3), of_star(views(item_actions@), 3)))
                + sorted_actions(merge_all(with_star(g, 4), of_star(views(item_actions@), 4))),
        decreases 5 - star,
    {
        let mut tier = actions_with_star(&generic, star);
        merge_actions(&mut tier, actions_of_star(item_actions, star));
        proof {
            acc = acc + views(tier@);
        }
        append(&mut out, tier);
        star += 1;
    }
    out
}

} // verus!

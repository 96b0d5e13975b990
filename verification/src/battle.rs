//! Sides, the battle's random numbers, the causes of battle events and their narration.
use vstd::prelude::*;
use crate::text;

verus! {

/// The side of the board a player sits on.
#[derive(Clone, Copy, Debug, PartialEq, Eq, Structural, PartialOrd, Ord, Hash)]
pub enum Side {
    Me,
    Enemy,
}

pub open spec fn spec_other(s: Side) -> Side {
    match s {
        Side::Me => Side::Enemy,
        Side::Enemy => Side::Me,
    }
}

pub open spec fn spec_idx(s: Side) -> usize {
    match s {
        Side::Me => 0,
        Side::Enemy => 1,
    }
}

impl Side {
    /// The opposing side.
    pub fn other(self) -> (r: Side)
        ensures
            r == spec_other(self),
    {
        match self {
            Side::Me => Side::Enemy,
            Side::Enemy => Side::Me,
        }
    }

    /// The side's slot in a pair: 0 for `Me`, 1 for `Enemy`.
    pub fn idx(self) -> (r: usize)
        ensures
            r == spec_idx(self),
    {
        match self {
            Side::Me => 0,
            Side::Enemy => 1,
        }
    }
}

/// The opposing side of the opposing side is the side itself, and the two sides take the
/// two slots of a pair.
pub proof fn lemma_other_involution(s: Side)
    ensures
        spec_other(spec_other(s)) == s,
        spec_other(s) != s,
        spec_idx(s) + spec_idx(spec_other(s)) == 1,
{
}

// ---------------------------------------------------------------------------
// Random numbers
// ---------------------------------------------------------------------------

/// The battle's pseudo-random generator (a xorshift step followed by a multiplication).
#[derive(Clone, Copy, Debug)]
pub struct Rng {
    pub state: u64,
}

pub open spec fn rng_mix(x: u64) -> u64 {
    let a = x ^ (x << 7u64);
    let b = a ^ (a >> 9u64);
    b.wrapping_mul(0x9E37_79B9_7F4A_7C15u64)
}

impl Rng {
    /// A generator seeded with `seed`, made odd.
    pub fn new(seed: u64) -> (r: Rng)
        ensures
            r.state == seed | 1,
    {
        Rng { state: seed | 1 }
    }

    /// The next number: the mixed state, which also becomes the new state.
    pub fn next_u64(&mut self) -> (r: u64)
        ensures
            r == rng_mix(old(self).state),
            final(self).state == r,
    {
        let mut x = self.state;
        x ^= x << 7u64;
        x ^= x >> 9u64;
        x = x.wrapping_mul(0x9E37_79B9_7F4A_7C15u64);
        self.state = x;
        x
    }

    /// A number below `n` (0 when `n` is 0), drawn from the next number.
    pub fn usize(&mut self, n: usize) -> (r: usize)
        ensures
            n == 0 ==> r == 0 && final(self).state == old(self).state,
            n > 0 ==> r == (rng_mix(old(self).state) as usize) % n && r < n && final(self).state
                == rng_mix(old(self).state),
    {
        if n == 0 {
            0
        } else {
            (self.next_u64() as usize) % n
        }
    }

    /// A coin flip: the lowest bit of the next number.
    pub fn bool(&mut self) -> (r: bool)
        ensures
            r == (rng_mix(old(self).state) & 1 == 1),
            final(self).state == rng_mix(old(self).state),
    {
        self.next_u64() & 1 == 1
    }
}

// ---------------------------------------------------------------------------
// Lethal counts
// ---------------------------------------------------------------------------

/// How many times an event left each side dead.
#[derive(Clone, Copy, Debug)]
pub struct LethalStat {
    pub me: usize,
    pub enemy: usize,
}

pub open spec fn majority(k: usize, count: usize) -> bool {
    k * 2 >= count
}

impl LethalStat {
    /// Counts the side that died, if one did.
    pub fn add(&mut self, side: Option<Side>)
        requires
            old(self).me < usize::MAX,
            old(self).enemy < usize::MAX,
        ensures
            final(self).me == old(self).me + (if side == Some(Side::Me) { 1usize } else { 0 }),
            final(self).enemy == old(self).enemy + (if side == Some(Side::Enemy) { 1usize } else { 0 }),
    {
        match side {
            Some(Side::Me) => self.me += 1,
            Some(Side::Enemy) => self.enemy += 1,
            None => {},
        }
    }

    /// The side that died in at least half of `count` runs (you first), or `"-"`.
    pub fn label(&self, count: usize) -> (r: String)
        ensures
            r@ == spec_lethal_label(self.me, self.enemy, count),
    {
        if count == 0 {
            text::string_from("-")
        } else if self.me >= count - count / 2 {
            text::string_from("你阵亡")
        } else if self.enemy >= count - count / 2 {
            text::string_from("敌方阵亡")
        } else {
            text::string_from("-")
        }
    }

    /// Some side died in at least half of `count` runs.
    pub fn is_majority_lethal(&self, count: usize) -> (r: bool)
        ensures
            r == (count > 0 && (majority(self.me, count) || majority(self.enemy, count))),
    {
        count > 0 && (self.me >= count - count / 2 || self.enemy >= count - count / 2)
    }
}

pub open spec fn spec_lethal_label(me: usize, enemy: usize, count: usize) -> Seq<char> {
    if count == 0 {
        "-"@
    } else if majority(me, count) {
        "你阵亡"@
    } else if majority(enemy, count) {
        "敌方阵亡"@
    } else {
        "-"@
    }
}

/// The lethal label names a side exactly when the event is a majority kill.
pub proof fn lemma_label_matches_majority(me: usize, enemy: usize, count: usize)
    ensures
        (spec_lethal_label(me, enemy, count) != "-"@) <== (count > 0 && (majority(me, count)
            || majority(enemy, count))),
        (count > 0 && (majority(me, count) || majority(enemy, count))) ==> (spec_lethal_label(
            me,
            enemy,
            count,
        ) == "你阵亡"@ || spec_lethal_label(me, enemy, count) == "敌方阵亡"@),
{
    reveal_strlit("-");
    reveal_strlit("你阵亡");
    reveal_strlit("敌方阵亡");
}

// ---------------------------------------------------------------------------
// Event causes and their texts
// ---------------------------------------------------------------------------

/// The cause of a battle event, by kind, with the sides and the item that caused it.
#[allow(inconsistent_fields)]
#[derive(Clone, Debug, PartialEq, Eq, PartialOrd, Ord, Hash)]
pub enum EventTag {
    StartMaxHp { side: Side, source: &'static str },
    StartSword { side: Side, source: &'static str },
    StartArmor { side: Side, source: &'static str },
    StartReduction { side: Side, source: &'static str },
    ArmorGain { side: Side, source: &'static str },
    AttackBoost { side: Side, source: &'static str },
    Damage { attacker: Side, source: &'static str, target: Side },
    ArmorAbsorb { attacker: Side, source: &'static str, target: Side },
    Heal { side: Side, source: &'static str },
    Freeze { source: Side, source_name: &'static str, target: Side },
    Charge { side: Side, source: &'static str },
    Accelerate { side: Side, source: &'static str },
    Slow { side: Side, source: &'static str },
    Stagger { side: Side, source: &'static str, target: Side },
}

pub open spec fn spec_side_name(s: Side) -> Seq<char> {
    match s {
        Side::Me => "我方"@,
        Side::Enemy => "敌方"@,
    }
}

pub open spec fn spec_timeline_side(s: Side) -> Seq<char> {
    match s {
        Side::Me => "你方"@,
        Side::Enemy => "敌方"@,
    }
}

/// A side as the report names it.
pub fn side_name(side: Side) -> (r: &'static str)
    ensures
        r@ == spec_side_name(side),
{
    match side {
        Side::Me => "我方",
        Side::Enemy => "敌方",
    }
}

/// A side as the timeline names it when it acts.
pub fn timeline_side(side: Side) -> (r: &'static str)
    ensures
        r@ == spec_timeline_side(side),
{
    match side {
        Side::Me => "你方",
        Side::Enemy => "敌方",
    }
}

/// A side as the timeline names it when it is acted on.
pub fn timeline_target(side: Side) -> (r: &'static str)
    ensures
        r@ == spec_timeline_side(side),
{
    match side {
        Side::Me => "你方",
        Side::Enemy => "敌方",
    }
}

fn concat2(a: &str, b: &str) -> (r: String)
    ensures
        r@ == a@ + b@,
{
    let mut s = text::string_from(a);
    text::push_str(&mut s, b);
    s
}

fn concat3(a: &str, b: &str, c: &str) -> (r: String)
    ensures
        r@ == a@ + b@ + c@,
{
    let mut s = concat2(a, b);
    text::push_str(&mut s, c);
    s
}

/// The narration of a cause in the per-second report.
pub open spec fn spec_narrate_event(t: EventTag) -> Seq<char> {
    match t {
        EventTag::StartMaxHp { side, source } => spec_side_name(side) + source@ + "抬高了最大生命"@,
        EventTag::StartSword { side, source } => spec_side_name(side) + source@ + "补了初始剑势"@,
        EventTag::StartArmor { side, source } => spec_side_name(side) + source@ + "提供了开局护甲"@,
        EventTag::StartReduction { side, source } => spec_side_name(side) + source@ + "提供了减伤"@,
        EventTag::ArmorGain { side, source } => spec_side_name(side) + source@ + "触发护甲提升"@,
        EventTag::AttackBoost { side, source } => spec_side_name(side) + source@ + "抬高了武器攻击力"@,
        EventTag::Damage { attacker, source, target } => spec_side_name(attacker) + source@ + "对"@
            + spec_side_name(target) + "造成伤害"@,
        EventTag::ArmorAbsorb { attacker, source, target } => spec_side_name(attacker) + source@
            + "被"@ + spec_side_name(target) + "护甲吸收"@,
        EventTag::Heal { side, source } => spec_side_name(side) + source@ + "触发回复"@,
        EventTag::Freeze { source, source_name, target } => spec_side_name(source) + source_name@
            + "冻结了"@ + spec_side_name(target) + "的读条装备"@,
        EventTag::Charge { side, source } => spec_side_name(side) + source@ + "推进了读条"@,
        EventTag::Accelerate { side, source } => spec_side_name(side) + source@ + "让读条加速"@,
        EventTag::Slow { side, source } => spec_side_name(side) + source@ + "造成减速"@,
        EventTag::Stagger { side, source, target } => spec_side_name(side) + source@ + "让"@
            + spec_side_name(target) + "硬直"@,
    }
}

proof fn lemma_starts(head: Seq<char>, rest: Seq<char>)
    ensures
        text::starts_with(head + rest, head),
        text::ends_with(head + rest, rest),
{
    assert((head + rest).subrange(0, head.len() as int) =~= head);
    assert((head + rest).subrange(head.len() as int, (head + rest).len() as int) =~= rest);
}

/// The narration of armor absorbing a hit ends with "被", the side whose armor absorbed
/// it, and "护甲吸收".
pub proof fn lemma_absorb_narration(attacker: Side, source: &'static str, target: Side)
    ensures
        text::ends_with(
            spec_narrate_event(EventTag::ArmorAbsorb { attacker, source, target }),
            "被"@ + spec_side_name(target) + "护甲吸收"@,
        ),
{
    let h = spec_side_name(attacker) + source@;
    let tail = "被"@ + spec_side_name(target) + "护甲吸收"@;
    assert(spec_narrate_event(EventTag::ArmorAbsorb { attacker, source, target }) =~= h + tail);
    lemma_starts(h, tail);
}

/// The narration of a freeze ends with "冻结了", the side frozen, and "的读条装备".
pub proof fn lemma_freeze_narration(source: Side, source_name: &'static str, target: Side)
    ensures
        text::ends_with(
            spec_narrate_event(EventTag::Freeze { source, source_name, target }),
            "冻结了"@ + spec_side_name(target) + "的读条装备"@,
        ),
{
    let h = spec_side_name(source) + source_name@;
    let tail = "冻结了"@ + spec_side_name(target) + "的读条装备"@;
    assert(spec_narrate_event(EventTag::Freeze { source, source_name, target }) =~= h + tail);
    lemma_starts(h, tail);
}

/// The narration of a stagger ends with "让", the side staggered, and "硬直".
pub proof fn lemma_stagger_narration(side: Side, source: &'static str, target: Side)
    ensures
        text::ends_with(
            spec_narrate_event(EventTag::Stagger { side, source, target }),
            "让"@ + spec_side_name(target) + "硬直"@,
        ),
{
    let h = spec_side_name(side) + source@;
    let tail = "让"@ + spec_side_name(target) + "硬直"@;
    assert(spec_narrate_event(EventTag::Stagger { side, source, target }) =~= h + tail);
    lemma_starts(h, tail);
}

/// The narration of a damage event opens with the attacking side and its item, and ends
/// with "对", the side that was hit, and "造成伤害".
pub proof fn lemma_damage_narration(attacker: Side, source: &'static str, target: Side)
    ensures
        text::starts_with(
            spec_narrate_event(EventTag::Damage { attacker, source, target }),
            spec_side_name(attacker) + source@,
        ),
        text::ends_with(
            spec_narrate_event(EventTag::Damage { attacker, source, target }),
            "对"@ + spec_side_name(target) + "造成伤害"@,
        ),
{
    let r = spec_narrate_event(EventTag::Damage { attacker, source, target });
    let head = spec_side_name(attacker) + source@;
    let tail = "对"@ + spec_side_name(target) + "造成伤害"@;
    assert(r =~= head + tail);
    assert(r.subrange(0, head.len() as int) =~= head);
    assert(r.subrange(r.len() - tail.len(), r.len() as int) =~= tail);
}


fn two_sided(a: Side, source: &str, mid: &str, b: Side, end: &str) -> (r: String)
    ensures
        r@ == spec_side_name(a) + source@ + mid@ + spec_side_name(b) + end@,
{
    let mut s = concat3(side_name(a), source, mid);
    text::push_str(&mut s, side_name(b));
    text::push_str(&mut s, end);
    s
}

/// Narrates the cause of an event.
pub fn narrate_event(reason: &EventTag) -> (r: String)
    ensures
        r@ == spec_narrate_event(*reason),
{
    match reason {
        EventTag::StartMaxHp { side, source } => concat3(side_name(*side), source, "抬高了最大生命"),
        EventTag::StartSword { side, source } => concat3(side_name(*side), source, "补了初始剑势"),
        EventTag::StartArmor { side, source } => concat3(side_name(*side), source, "提供了开局护甲"),
        EventTag::StartReduction { side, source } => concat3(side_name(*side), source, "提供了减伤"),
        EventTag::ArmorGain { side, source } => concat3(side_name(*side), source, "触发护甲提升"),
        EventTag::AttackBoost { side, source } => concat3(side_name(*side), source, "抬高了武器攻击力"),
        EventTag::Damage { attacker, source, target } => two_sided(
            *attacker,
            source,
            "对",
            *target,
            "造成伤害",
        ),
        EventTag::ArmorAbsorb { attacker, source, target } => two_sided(
            *attacker,
            source,
            "被",
            *target,
            "护甲吸收",
        ),
        EventTag::Heal { side, source } => concat3(side_name(*side), source, "触发回复"),
        EventTag::Freeze { source, source_name, target } => two_sided(
            *source,
            source_name,
            "冻结了",
            *target,
            "的读条装备",
        ),
        EventTag::Charge { side, source } => concat3(side_name(*side), source, "推进了读条"),
        EventTag::Accelerate { side, source } => concat3(side_name(*side), source, "让读条加速"),
        EventTag::Slow { side, source } => concat3(side_name(*side), source, "造成减速"),
        EventTag::Stagger { side, source, target } => two_sided(*side, source, "让", *target, "硬直"),
    }
}

/// The timeline entry a cause adds, if it adds one.
pub open spec fn spec_timeline_reason_text(t: EventTag) -> Option<Seq<char>> {
    match t {
        EventTag::ArmorGain { side, source } => Some(spec_timeline_side(side) + source@ + "触发护甲提升"@),
        EventTag::AttackBoost { side, source } => Some(
            if text::contains(source@, "攻击力"@) {
                spec_timeline_side(side) + source@
            } else {
                spec_timeline_side(side) + source@ + "提升武器攻击力"@
            },
        ),
        EventTag::Heal { side, source } => Some(spec_timeline_side(side) + source@ + "触发治疗"@),
        EventTag::Freeze { source, source_name, target } => Some(
            spec_timeline_side(source) + source_name@ + "冻结"@ + spec_timeline_side(target)
                + "读条道具"@,
        ),
        EventTag::Charge { side, source } => Some(
            if text::contains(source@, "充能"@) {
                spec_timeline_side(side) + source@
            } else {
                spec_timeline_side(side) + source@ + "推进读条"@
            },
        ),
        EventTag::Accelerate { side, source } => Some(spec_timeline_side(side) + source@ + "触发加速"@),
        EventTag::Slow { side, source } => Some(spec_timeline_side(side) + source@ + "触发减速"@),
        _ => None,
    }
}

fn holds(s: &str, m: &str) -> (r: bool)
    ensures
        r == text::contains(s@, m@),
{
    let a = text::chars_of(s);
    let b = text::chars_of(m);
    text::contains_exec(&a, &b)
}

/// The timeline entry a cause adds: the starting bonuses, damage, armor absorption and
/// staggers add none.
pub fn timeline_reason_text(reason: &EventTag) -> (r: Option<String>)
    ensures
        r matches Some(s) ==> spec_timeline_reason_text(*reason) == Some(s@),
        r is None ==> spec_timeline_reason_text(*reason) is None,
{
    match reason {
        EventTag::ArmorGain { side, source } => Some(concat3(timeline_side(*side), source, "触发护甲提升")),
        EventTag::AttackBoost { side, source } => {
            if holds(source, "攻击力") {
                Some(concat2(timeline_side(*side), source))
            } else {
                Some(concat3(timeline_side(*side), source, "提升武器攻击力"))
            }
        },
        EventTag::Heal { side, source } => Some(concat3(timeline_side(*side), source, "触发治疗")),
        EventTag::Freeze { source, source_name, target } => {
            let mut s = concat3(timeline_side(*source), source_name, "冻结");
            text::push_str(&mut s, timeline_target(*target));
            text::push_str(&mut s, "读条道具");
            Some(s)
        },
        EventTag::Charge { side, source } => {
            if holds(source, "充能") {
                Some(concat2(timeline_side(*side), source))
            } else {
                Some(concat3(timeline_side(*side), source, "推进读条"))
            }
        },
        EventTag::Accelerate { side, source } => Some(concat3(timeline_side(*side), source, "触发加速")),
        EventTag::Slow { side, source } => Some(concat3(timeline_side(*side), source, "触发减速")),
        _ => None,
    }
}

/// The action a damage cause names in the timeline.
pub open spec fn spec_damage_action(cause: Seq<char>) -> Seq<char> {
    if cause == "龙弧蓄力攻击"@ {
        "龙弧 蓄力命中"@
    } else if cause == "龙弧普通攻击"@ {
        "龙弧 普攻命中"@
    } else if cause == "烛神令蓄力攻击"@ {
        "烛神令 蓄力命中"@
    } else if cause == "烛神令普通攻击"@ {
        "烛神令 普攻命中"@
    } else if cause == "冰魄普通攻击"@ {
        "冰魄 普攻命中"@
    } else {
        cause
    }
}

pub open spec fn spec_damage_event_text(attacker: Side, cause: Seq<char>) -> Seq<char> {
    (match attacker {
        Side::Me => "你"@,
        Side::Enemy => "敌方"@,
    }) + " "@ + spec_damage_action(cause)
}

/// The timeline entry of a hit: who hit, and with what.
pub fn damage_event_text(attacker: Side, cause: &str) -> (r: String)
    ensures
        r@ == spec_damage_event_text(attacker, cause@),
{
    let side = match attacker {
        Side::Me => "你",
        Side::Enemy => "敌方",
    };
    let c = text::chars_of(cause);
    let action: &str = if text::eq_str(&c, "龙弧蓄力攻击") {
        "龙弧 蓄力命中"
    } else if text::eq_str(&c, "龙弧普通攻击") {
        "龙弧 普攻命中"
    } else if text::eq_str(&c, "烛神令蓄力攻击") {
        "烛神令 蓄力命中"
    } else if text::eq_str(&c, "烛神令普通攻击") {
        "烛神令 普攻命中"
    } else if text::eq_str(&c, "冰魄普通攻击") {
        "冰魄 普攻命中"
    } else {
        cause
    };
    concat3(side, " ", action)
}

pub open spec fn spec_parry_event_text(defender: Side, attacker: Side) -> Seq<char> {
    match (defender, attacker) {
        (Side::Me, Side::Enemy) => "你振刀成功，敌方硬直 3 秒"@,
        (Side::Enemy, Side::Me) => "敌方振刀成功，你方硬直 3 秒"@,
        _ => "振刀成功，攻击方硬直 3 秒"@,
    }
}

/// The timeline entry of a successful parry.
pub fn parry_event_text(defender: Side, attacker: Side) -> (r: String)
    ensures
        r@ == spec_parry_event_text(defender, attacker),
{
    match (defender, attacker) {
        (Side::Me, Side::Enemy) => text::string_from("你振刀成功，敌方硬直 3 秒"),
        (Side::Enemy, Side::Me) => text::string_from("敌方振刀成功，你方硬直 3 秒"),
        _ => text::string_from("振刀成功，攻击方硬直 3 秒"),
    }
}

} // verus!

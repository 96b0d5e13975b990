//! Effect parameters of actions: the numbers an action's text gives each named effect.
use vstd::prelude::*;
use crate::text;
use crate::num;
use crate::stars;
use crate::actions::{self, Action};

verus! {

/// One named number of an action, in thousandths, with its unit.
#[derive(Clone, Debug)]
pub struct EffectParam {
    pub key: &'static str,
    pub value: u64,
    pub unit: &'static str,
}

pub struct EffectParamView {
    pub key: Seq<char>,
    pub value: u64,
    pub unit: Seq<char>,
}

impl View for EffectParam {
    type V = EffectParamView;

    open spec fn view(&self) -> EffectParamView {
        EffectParamView { key: self.key@, value: self.value, unit: self.unit@ }
    }
}

pub open spec fn params(v: Seq<EffectParam>) -> Seq<EffectParamView> {
    v.map_values(|e: EffectParam| e@)
}

/// The parameter `key` with the largest number between `start` and `end` in `t`, if any.
pub open spec fn param(key: &str, t: Seq<char>, start: &str, end: &str, unit: &str) -> Seq<
    EffectParamView,
> {
    match num::number_between(t, start@, end@) {
        Some(v) => seq![EffectParamView { key: key@, value: v, unit: unit@ }],
        None => seq![],
    }
}

pub open spec fn opt_section(s: Option<Seq<char>>, f: spec_fn(Seq<char>) -> Seq<EffectParamView>) -> Seq<
    EffectParamView,
> {
    match s {
        Some(t) => f(t),
        None => seq![],
    }
}

/// The effect parameters the property text gives an action, by the action's kind.
pub open spec fn spec_infer_effects(p: Seq<char>, action: Seq<char>) -> Seq<EffectParamView> {
    let normal = text::section_after(p, "普通攻击"@);
    let charged = text::section_after(p, "蓄力攻击"@);
    if action == "freezing_normal_weapon_attack"@ {
        opt_section(
            normal,
            |n: Seq<char>|
                param("multi_trigger", p, "多重触发", "；", "次") + param(
                    "normal_sword",
                    n,
                    "剑势+",
                    "点",
                    "点",
                ) + param("freeze_count", n, "冻结对手随机", "件", "件") + param(
                    "freeze_duration",
                    n,
                    "道具",
                    "秒",
                    "秒",
                ),
        )
    } else if action == "add_freeze_attack_stack"@ {
        let first = param("attack_bonus", p, "所有武器+", "点", "点");
        (if first.len() > 0 {
            first
        } else {
            param("attack_bonus", p, "所有武器+", "攻击力", "点")
        }) + param("max_stacks", p, "最多叠加", "次", "次")
    } else if action == "charged_healing_weapon_attack"@ {
        opt_section(
            charged,
            |c: Seq<char>|
                param("charged_sword_cost", c, "消耗", "点剑势", "点") + param(
                    "charged_damage_multiplier",
                    c,
                    "造成",
                    "倍",
                    "倍",
                ) + param("charged_heal", c, "生命恢复+", "点", "点"),
        ) + opt_section(
            normal,
            |n: Seq<char>|
                param("normal_sword", n, "剑势+", "点", "点") + param(
                    "normal_heal",
                    n,
                    "生命恢复+",
                    "点",
                    "点",
                ),
        ) + param("multi_trigger", p, "多重触发", "；", "次")
    } else if action == "charged_sword_control_weapon_attack"@ {
        opt_section(
            charged,
            |c: Seq<char>|
                param("charged_sword_cost", c, "消耗", "点剑势", "点") + param(
                    "charged_damage_multiplier",
                    c,
                    "造成",
                    "倍",
                    "倍",
                ) + param("charged_enemy_sword_loss", c, "对手剑势-", "点", "点") + param(
                    "freeze_count",
                    c,
                    "冻结对手随机",
                    "件",
                    "件",
                ) + param("freeze_duration", c, "道具", "秒", "秒"),
        ) + opt_section(normal, |n: Seq<char>| param("normal_sword", n, "剑势+", "点", "点"))
            + param("multi_trigger", p, "多重触发", "；", "次")
    } else if action == "charge_self"@ {
        param("charge_seconds", p, "本武器充能", "秒", "秒")
    } else if action == "start_sword"@ {
        param("start_sword", p, "战斗初始剑势+", "点", "点")
    } else if action == "enemy_sword"@ {
        param("enemy_sword_loss", p, "对手剑势-", "点", "点")
    } else {
        seq![]
    }
}

/// For an action whose charged attack freezes (`charged_sword_control_weapon_attack`), the
/// freeze count is the largest number written between "冻结对手随机" and the next "件" of
/// the charged-attack section, counted in "件": it is given exactly when that section
/// writes such a number, and no other number stands under that key.
pub proof fn lemma_charged_freeze_count(p: Seq<char>, c: Seq<char>)
    requires
        text::section_after(p, "蓄力攻击"@) == Some(c),
    ensures
        forall|k: int|
            0 <= k < spec_infer_effects(p, "charged_sword_control_weapon_attack"@).len() && (
            #[trigger] spec_infer_effects(p, "charged_sword_control_weapon_attack"@)[k]).key
                == "freeze_count"@ ==> num::number_between(c, "冻结对手随机"@, "件"@) == Some(
                spec_infer_effects(p, "charged_sword_control_weapon_attack"@)[k].value,
            ) && spec_infer_effects(p, "charged_sword_control_weapon_attack"@)[k].unit == "件"@,
        num::number_between(c, "冻结对手随机"@, "件"@) matches Some(v) ==> exists|k: int|
            0 <= k < spec_infer_effects(p, "charged_sword_control_weapon_attack"@).len() && (
            #[trigger] spec_infer_effects(p, "charged_sword_control_weapon_attack"@)[k]).key
                == "freeze_count"@ && spec_infer_effects(p, "charged_sword_control_weapon_attack"@)[k].value == v,
{
    reveal_strlit("freeze_count");
    reveal_strlit("charged_sword_cost");
    reveal_strlit("charged_damage_multiplier");
    reveal_strlit("charged_enemy_sword_loss");
    reveal_strlit("freeze_duration");
    reveal_strlit("normal_sword");
    reveal_strlit("multi_trigger");
    reveal_strlit("charged_sword_control_weapon_attack");
    reveal_strlit("freezing_normal_weapon_attack");
    reveal_strlit("add_freeze_attack_stack");
    reveal_strlit("charged_healing_weapon_attack");
    let act = "charged_sword_control_weapon_attack"@;
    assert(act != "freezing_normal_weapon_attack"@ && act != "add_freeze_attack_stack"@ && act
        != "charged_healing_weapon_attack"@) by {
        assert(act.len() != "freezing_normal_weapon_attack"@.len());
        assert(act.len() != "add_freeze_attack_stack"@.len());
        assert(act[8] != "charged_healing_weapon_attack"@[8]);
    }
    let normal = text::section_after(p, "普通攻击"@);
    let a1 = param("charged_sword_cost", c, "消耗", "点剑势", "点");
    let a2 = param("charged_damage_multiplier", c, "造成", "倍", "倍");
    let a3 = param("charged_enemy_sword_loss", c, "对手剑势-", "点", "点");
    let a4 = param("freeze_count", c, "冻结对手随机", "件", "件");
    let a5 = param("freeze_duration", c, "道具", "秒", "秒");
    let nm = opt_section(normal, |n: Seq<char>| param("normal_sword", n, "剑势+", "点", "点"));
    let mt = param("multi_trigger", p, "多重触发", "；", "次");
    let r = spec_infer_effects(p, act);
    assert(r == a1 + a2 + a3 + a4 + a5 + nm + mt);
    let fc = "freeze_count"@;
    assert(fc.len() == 12);
    assert("charged_sword_cost"@ != fc && "charged_damage_multiplier"@ != fc && "charged_enemy_sword_loss"@
        != fc && "freeze_duration"@ != fc && "multi_trigger"@ != fc);
    assert("normal_sword"@ != fc) by {
        assert("normal_sword"@[0] != fc[0]);
    }
    assert forall|e: EffectParamView| #[trigger] nm.contains(e) implies e.key == "normal_sword"@ by {
        let k = choose|k: int| 0 <= k < nm.len() && nm[k] == e;
    }
    let l1 = a1.len() as int;
    let l2 = l1 + a2.len();
    let l3 = l2 + a3.len();
    let l4 = l3 + a4.len();
    let l5 = l4 + a5.len();
    let l6 = l5 + nm.len();
    assert forall|k: int| 0 <= k < r.len() && (#[trigger] r[k]).key == fc implies num::number_between(
        c,
        "冻结对手随机"@,
        "件"@,
    ) == Some(r[k].value) && r[k].unit == "件"@ by {
        if k < l1 {
            assert(r[k] == a1[k]);
        } else if k < l2 {
            assert(r[k] == a2[k - l1]);
        } else if k < l3 {
            assert(r[k] == a3[k - l2]);
        } else if k < l4 {
            assert(r[k] == a4[k - l3]);
        } else if k < l5 {
            assert(r[k] == a5[k - l4]);
        } else if k < l6 {
            assert(r[k] == nm[k - l5]);
            assert(nm.contains(nm[k - l5]));
        } else {
            assert(r[k] == mt[k - l6]);
        }
    }
    if num::number_between(c, "冻结对手随机"@, "件"@) is Some {
        assert(r[l3] == a4[0]);
    }
}

/// Appends the parameter `key` when `t` writes a number between `start` and `end`.
fn push_number(
    out: &mut Vec<EffectParam>,
    key: &'static str,
    t: &[char],
    start: &str,
    end: &str,
    unit: &'static str,
)
    ensures
        params(final(out)@) == params(old(out)@) + param(key, t@, start, end, unit),
{
    match num::number_between_exec(t, start, end) {
        Some(v) => {
            let ghost before = out@;
            out.push(EffectParam { key, value: v, unit });
            assert(params(out@) =~= params(before) + param(key, t@, start, end, unit));
        },
        None => {
            assert(params(out@) =~= params(out@) + param(key, t@, start, end, unit));
        },
    }
}

/// The effect parameters that a property text gives an action, by the action's kind: for
/// each parameter the kind names, the largest number the text writes between its markers.
pub fn infer_effects(properties: &str, action: &str) -> (r: Vec<EffectParam>)
    ensures
        params(r@) == spec_infer_effects(properties@, action@),
{
    let p = text::chars_of(properties);
    let a = text::chars_of(action);
    let m_normal = text::chars_of("普通攻击");
    let m_charged = text::chars_of("蓄力攻击");
    let normal = text::section_after_exec(&p, &m_normal);
    let charged = text::section_after_exec(&p, &m_charged);
    let mut out: Vec<EffectParam> = Vec::new();
    assert(params(out@) =~= Seq::<EffectParamView>::empty());
    if text::eq_str(&a, "freezing_normal_weapon_attack") {
        if let Some(n) = &normal {
            push_number(&mut out, "multi_trigger", &p, "多重触发", "；", "次");
            push_number(&mut out, "normal_sword", n, "剑势+", "点", "点");
            push_number(&mut out, "freeze_count", n, "冻结对手随机", "件", "件");
            push_number(&mut out, "freeze_duration", n, "道具", "秒", "秒");
        }
    } else if text::eq_str(&a, "add_freeze_attack_stack") {
        push_number(&mut out, "attack_bonus", &p, "所有武器+", "点", "点");
        if out.len() == 0 {
            push_number(&mut out, "attack_bonus", &p, "所有武器+", "攻击力", "点");
        }
        push_number(&mut out, "max_stacks", &p, "最多叠加", "次", "次");
    } else if text::eq_str(&a, "charged_healing_weapon_attack") {
        if let Some(c) = &charged {
            push_number(&mut out, "charged_sword_cost", c, "消耗", "点剑势", "点");
            push_number(&mut out, "charged_damage_multiplier", c, "造成", "倍", "倍");
            push_number(&mut out, "charged_heal", c, "生命恢复+", "点", "点");
        }
        if let Some(n) = &normal {
            push_number(&mut out, "normal_sword", n, "剑势+", "点", "点");
            push_number(&mut out, "normal_heal", n, "生命恢复+", "点", "点");
        }
        push_number(&mut out, "multi_trigger", &p, "多重触发", "；", "次");
    } else if text::eq_str(&a, "charged_sword_control_weapon_attack") {
        if let Some(c) = &charged {
            push_number(&mut out, "charged_sword_cost", c, "消耗", "点剑势", "点");
            push_number(&mut out, "charged_damage_multiplier", c, "造成", "倍", "倍");
            push_number(&mut out, "charged_enemy_sword_loss", c, "对手剑势-", "点", "点");
            push_number(&mut out, "freeze_count", c, "冻结对手随机", "件", "件");
            push_number(&mut out, "freeze_duration", c, "道具", "秒", "秒");
        }
        if let Some(n) = &normal {
            push_number(&mut out, "normal_sword", n, "剑势+", "点", "点");
        }
        push_number(&mut out, "multi_trigger", &p, "多重触发", "；", "次");
    } else if text::eq_str(&a, "charge_self") {
        push_number(&mut out, "charge_seconds", &p, "本武器充能", "秒", "秒");
    } else if text::eq_str(&a, "start_sword") {
        push_number(&mut out, "start_sword", &p, "战斗初始剑势+", "点", "点");
    } else if text::eq_str(&a, "enemy_sword") {
        push_number(&mut out, "enemy_sword_loss", &p, "对手剑势-", "点", "点");
    }
    assert(params(out@) =~= spec_infer_effects(properties@, action@));
    out
}

/// The text an action's effects are read from: its tier's reading for tiers 1 to 4,
/// tier 4's otherwise.
pub open spec fn spec_effect_text(p: Seq<char>, star: int) -> Seq<char> {
    if 1 <= star <= 4 {
        stars::spec_properties_for_star(p, star as nat)
    } else {
        stars::spec_properties_for_star(p, 4)
    }
}

/// The effect parameters of a stored action, read from its item's property text at the
/// action's star tier.
pub fn effects_for_action(properties: &str, action: &Action) -> (r: Vec<EffectParam>)
    ensures
        params(r@) == spec_infer_effects(spec_effect_text(properties@, action.star as int), action.action@),
{
    let p = text::chars_of(properties);
    let star: u64 = if 1 <= action.star && action.star <= 4 {
        action.star as u64
    } else {
        4
    };
    let t = stars::properties_for_star_chars(&p, star);
    let ts = text::string_of(&t);
    infer_effects(ts.as_str(), action.action.as_str())
}

} // verus!

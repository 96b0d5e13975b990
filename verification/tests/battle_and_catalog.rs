use battle_sim::actions::{infer_actions, Action};
use battle_sim::battle::{
    damage_event_text, narrate_event, parry_event_text, side_name, timeline_reason_text, EventTag,
    LethalStat, Rng, Side,
};
use battle_sim::catalog::{all, attribute_terms, kind_from_db, kind_label, kind_to_db, star_profile, DamageAmount, Effect, Kind, Target, Trigger};
use battle_sim::query::{ActionRow, EffectEntry};
use battle_sim::store::actions_by_trigger;

#[test]
fn synced_terms_include_crit_burn_and_poison() {
    let terms = attribute_terms();
    let rows = [
        ("暴击", "有一定几率造成2倍伤害。"),
        ("灼伤", "每秒受到等同于当前灼伤层数的伤害，每秒层数减少10%。"),
        ("中毒", "每秒受到等同于当前中毒层数的伤害，无视护甲。"),
    ];
    for (term, expected) in rows {
        let actual = terms.iter().find(|t| t.term == term).expect("term exists").description;
        assert_eq!(actual, expected);
    }
}

#[test]
fn generator_is_reproducible() {
    let mut a = Rng::new(4);
    assert_eq!(a.state, 5);
    assert_eq!(a.next_u64(), 256202307738281172);
    assert_eq!(a.usize(10), 7);
    assert!(a.bool());
    let mut z = Rng::new(9);
    let before = z.state;
    assert_eq!(z.usize(0), 0);
    assert_eq!(z.state, before);
}

#[test]
fn sides_swap() {
    assert_eq!(Side::Me.other(), Side::Enemy);
    assert_eq!(Side::Me.other().other(), Side::Me);
    assert_eq!(Side::Enemy.idx(), 1);
    assert_eq!(side_name(Side::Me), "我方");
}

#[test]
fn lethal_labels_follow_the_majority() {
    let mut l = LethalStat { me: 0, enemy: 0 };
    l.add(Some(Side::Me));
    l.add(Some(Side::Me));
    l.add(None);
    assert_eq!(l.label(4), "你阵亡");
    assert!(l.is_majority_lethal(4));
    assert_eq!(l.label(5), "-");
    assert!(!l.is_majority_lethal(5));
    assert_eq!(l.label(0), "-");
}

#[test]
fn event_texts() {
    assert_eq!(damage_event_text(Side::Enemy, "龙弧蓄力攻击"), "敌方 龙弧 蓄力命中");
    assert_eq!(damage_event_text(Side::Me, "灼伤"), "你 灼伤");
    assert_eq!(parry_event_text(Side::Me, Side::Enemy), "你振刀成功，敌方硬直 3 秒");
    assert_eq!(parry_event_text(Side::Me, Side::Me), "振刀成功，攻击方硬直 3 秒");
    assert_eq!(
        timeline_reason_text(&EventTag::Freeze { source: Side::Me, source_name: "冰魄", target: Side::Enemy }),
        Some("你方冰魄冻结敌方读条道具".to_string())
    );
    assert_eq!(
        timeline_reason_text(&EventTag::AttackBoost { side: Side::Enemy, source: "百战攻击力+16" }),
        Some("敌方百战攻击力+16".to_string())
    );
    assert_eq!(timeline_reason_text(&EventTag::Damage { attacker: Side::Me, source: "x", target: Side::Enemy }), None);
    assert!(!narrate_event(&EventTag::Heal { side: Side::Me, source: "百战" }).is_empty());
}

#[test]
fn catalog_lists_items_in_order() {
    let items = all();
    assert_eq!(items.len(), 27);
    assert_eq!(items[0].def.short, "百战");
    assert_eq!(items[13].def.short, "冰魄");
    assert_eq!((items[13].def.w, items[13].def.h), (1, 3));
    assert_eq!(items[13].def.attack, 110000);
}

#[test]
fn catalog_effects_by_trigger() {
    let items = all();
    let dragon = &items[21];
    assert_eq!(dragon.def.short, "龙弧");
    assert_eq!(dragon.properties.len(), 2);
    assert_eq!(dragon.properties[0].trigger, Trigger::ChargedAttack);
    assert_eq!(
        dragon.properties[0].effects,
        vec![
            Effect::ConsumeSword(28),
            Effect::Damage(DamageAmount::WeaponAttackMultiplier(3700)),
            Effect::EnemySword(-16),
            Effect::Freeze { target: Target::EnemyRandomActiveItems(1), seconds: 2000 },
        ]
    );
    assert_eq!(items[26].properties[0].effects, vec![Effect::Slow { target: Target::EnemyRandomActiveItems(1), seconds: 4000 }]);
}

#[test]
fn weapon_tiers() {
    assert_eq!(star_profile("冰魄", 4).map(|p| (p.attack, p.interval)), Some((210000, 5500)));
    assert_eq!(star_profile("龙弧", 1).and_then(|p| p.charged_enemy_sword), Some(10));
    assert_eq!(star_profile("冰魄", 5), None);
    assert_eq!(star_profile("通达", 1), None);
}

#[test]
fn kinds_round_trip_through_storage() {
    for k in [Kind::Weapon, Kind::Charm, Kind::Potion, Kind::Soul, Kind::Armor] {
        assert_eq!(kind_from_db(kind_to_db(k)), k);
    }
    assert_eq!(kind_from_db("unknown"), Kind::Soul);
}

#[test]
fn actions_from_property_text() {
    let props = "多重触发2；普通攻击：造成等同于武器攻击力的伤害，剑势+16点，冻结对手随机1件道具1.5秒；战斗初始剑势+5点";
    let acts = infer_actions("冰魄", "冰魄近战武器", props, 2);
    let got: Vec<(&str, &str, Option<u64>, Option<u64>, Option<i64>, &str)> = acts
        .iter()
        .map(|a| (a.trigger.as_str(), a.action.as_str(), a.amount, a.duration, a.count, a.source_text.as_str()))
        .collect();
    assert_eq!(
        got,
        vec![
            ("active_use", "freezing_normal_weapon_attack", Some(2000), Some(1500), Some(1), "冰魄"),
            ("battle_start", "start_sword", Some(5000), None, None, "冰魄近战武器"),
        ]
    );
    assert!(acts.iter().all(|a| a.star == 2 && a.sort_order == 10));
}

fn arow(star: i64, trigger: &str, action: &str) -> ActionRow {
    ActionRow {
        action: Action {
            star,
            trigger: trigger.to_string(),
            action: action.to_string(),
            target: "self".to_string(),
            amount: Some(1000 * star as u64),
            duration: None,
            count: None,
            source_text: String::new(),
            sort_order: 0,
        },
        effects: Vec::<EffectEntry>::new(),
    }
}

#[test]
fn tier_actions_group_by_trigger() {
    let rows = vec![
        arow(0, "battle_start", "start_sword"),
        arow(2, "battle_start", "start_sword"),
        arow(0, "active_use", "heal"),
        arow(3, "on_crit", "slow_random"),
        arow(0, "battle_start", "armor"),
    ];
    let groups = actions_by_trigger(&rows, 2);
    let got: Vec<(String, Vec<(String, Option<u64>)>)> = groups
        .into_iter()
        .map(|(t, g)| (t, g.into_iter().map(|r| (r.action.action, r.action.amount)).collect()))
        .collect();
    assert_eq!(
        got,
        vec![
            ("active_use".to_string(), vec![("heal".to_string(), Some(0))]),
            (
                "battle_start".to_string(),
                vec![("armor".to_string(), Some(0)), ("start_sword".to_string(), Some(2000))]
            ),
        ]
    );
}

#[test]
fn weapons_and_charms_act_on_their_own() {
    let items = all();
    let by = |short: &str| items.iter().find(|e| e.def.short == short).unwrap().def;
    assert!(by("冰魄").active() && by("冰魄").weapon());
    assert!(by("冰髓").active() && !by("冰髓").weapon());
    assert!(!by("百战").active() && !by("神将甲").active());
}

#[test]
fn kinds_have_labels() {
    assert_eq!(kind_label(Kind::Weapon), "近战武器");
    assert_eq!(kind_label(Kind::Charm), "护符");
    assert_eq!(kind_label(Kind::Potion), "药品");
    assert_eq!(kind_label(Kind::Soul), "魂玉");
    assert_eq!(kind_label(Kind::Armor), "护甲");
}

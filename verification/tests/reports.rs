use battle_sim::actions::Action;
use battle_sim::query::{
    action_group_text, action_values_label, actions_for_star, collapse_values, combine_related_parts,
    empty_as_dash, equipment_lines, fallback_properties, generated_properties, multi_trigger_label,
    normal_sword_label, star_detail_text, target_label, trigger_label, ActionRow, EffectEntry, ItemInfo,
    TierProfile, ValueField,
};
use battle_sim::star_report::{gather_stars, missing_label, missing_stars, star_report, stars_label, StarRow};

fn action(star: i64, trigger: &str, name: &str, amount: Option<u64>, duration: Option<u64>, count: Option<i64>, sort_order: i64) -> Action {
    Action {
        star,
        trigger: trigger.to_string(),
        action: name.to_string(),
        target: "self".to_string(),
        amount,
        duration,
        count,
        source_text: "来源".to_string(),
        sort_order,
    }
}

fn row(a: Action, effects: &[(&str, u64)]) -> ActionRow {
    ActionRow {
        action: a,
        effects: effects.iter().map(|(k, v)| EffectEntry { key: k.to_string(), value: *v }).collect(),
    }
}

fn item(attack: u64, interval: u64) -> ItemInfo {
    ItemInfo {
        short: "冰魄".to_string(),
        full: "冰魄近战武器".to_string(),
        kind_label: "近战武器".to_string(),
        bag_slots: "1*3".to_string(),
        attack,
        interval,
        tags: "".to_string(),
    }
}

#[test]
fn labels_name_triggers_and_targets() {
    assert_eq!(trigger_label("on_crit"), "暴击时");
    assert_eq!(trigger_label("custom"), "custom");
    assert_eq!(target_label("enemy_active"), "对手读条道具");
    assert_eq!(target_label("x"), "x");
    assert_eq!(empty_as_dash("  "), "-");
    assert_eq!(empty_as_dash("a"), "a");
}

#[test]
fn values_collapse_when_equal() {
    assert_eq!(collapse_values(&vec![]), "-");
    assert_eq!(collapse_values(&vec!["3".to_string(), "3".to_string()]), "3");
    assert_eq!(collapse_values(&vec!["1".to_string(), "2".to_string()]), "1/2");
}

#[test]
fn four_tiers_show_their_values() {
    let rows: Vec<ActionRow> = (1..=4)
        .map(|s| row(action(s, "battle_start", "start_sword", Some(1000 * s as u64), None, None, 10), &[]))
        .collect();
    assert_eq!(action_values_label(&rows, ValueField::Amount), "1/2/3/4");
    let rows: Vec<ActionRow> = vec![
        row(action(2, "battle_start", "start_sword", Some(9000), None, None, 10), &[]),
        row(action(0, "battle_start", "start_sword", Some(5000), None, None, 10), &[]),
    ];
    assert_eq!(action_values_label(&rows, ValueField::Amount), "5");
    assert_eq!(action_values_label(&rows, ValueField::Count), "-");
}

#[test]
fn normal_sword_of_tiers() {
    let tiers: Vec<TierProfile> = (1..=4)
        .map(|s| TierProfile { star: s, attack: 0, interval: 0, normal_sword: 16 })
        .collect();
    assert_eq!(normal_sword_label(&tiers), "16");
    assert_eq!(normal_sword_label(&vec![]), "-");
}

#[test]
fn multi_trigger_is_the_least() {
    let rows = vec![
        row(action(1, "active_use", "freezing_normal_weapon_attack", Some(3000), None, None, 10), &[]),
        row(action(2, "active_use", "freezing_normal_weapon_attack", Some(5000), None, None, 10), &[("multi_trigger", 2000)]),
        row(action(0, "battle_start", "start_sword", Some(1000), None, None, 10), &[]),
    ];
    assert_eq!(multi_trigger_label(&rows), Some("2".to_string()));
    let others = vec![row(action(0, "battle_start", "start_sword", Some(1000), None, None, 10), &[])];
    assert_eq!(multi_trigger_label(&others), None);
}

#[test]
fn tier_rows_keep_highest_tier_per_key() {
    let rows = vec![
        row(action(0, "battle_start", "start_sword", Some(5000), None, None, 10), &[]),
        row(action(2, "battle_start", "start_sword", Some(7000), None, None, 10), &[]),
        row(action(3, "battle_start", "start_sword", Some(9000), None, None, 10), &[]),
        row(action(0, "active_use", "heal", Some(1000), None, None, 10), &[]),
    ];
    let kept = actions_for_star(&rows, 2);
    let got: Vec<(&str, Option<u64>)> = kept.iter().map(|r| (r.action.trigger.as_str(), r.action.amount)).collect();
    assert_eq!(got, vec![("active_use", Some(1000)), ("battle_start", Some(7000))]);
}

#[test]
fn star_detail_of_a_freezing_weapon() {
    let profile = TierProfile { star: 2, attack: 110000, interval: 6500, normal_sword: 16 };
    let rows = vec![row(
        action(0, "active_use", "freezing_normal_weapon_attack", Some(1000), Some(1000), Some(1), 10),
        &[("freeze_duration", 1500)],
    )];
    assert_eq!(
        star_detail_text(&profile, &rows),
        "攻击力 110，发动间隔 6.5，普攻剑势 16，冻结对手随机1件道具1.5秒"
    );
    let empty = TierProfile { star: 1, attack: 0, interval: 0, normal_sword: 0 };
    assert_eq!(star_detail_text(&empty, &vec![]), "暂无可由结构化表生成的星级信息");
}

#[test]
fn group_texts() {
    let rows = vec![row(action(0, "battle_start", "accelerate_all_active", None, Some(2500), None, 10), &[])];
    assert_eq!(action_group_text(&rows, &vec![]), Some("战斗初始所有道具加速2.5秒".to_string()));
    let rows = vec![row(action(0, "on_shield", "armor", Some(30000), None, Some(2), 10), &[])];
    assert_eq!(
        action_group_text(&rows, &vec![]),
        Some("on_shield：armor -> 自身，数值30，次数2（来源：来源）".to_string())
    );
    assert_eq!(action_group_text(&vec![], &vec![]), None);
}

#[test]
fn related_summaries_join() {
    let parts = vec![
        "蓄力攻击命中后：剑势+5点".to_string(),
        "蓄力攻击命中后：冻结对手随机1件道具2秒".to_string(),
        "其他".to_string(),
    ];
    assert_eq!(
        combine_related_parts(&parts),
        vec!["蓄力攻击命中后：剑势+5点，并冻结对手随机1件道具2秒".to_string(), "其他".to_string()]
    );
}

#[test]
fn generated_property_text() {
    let rows = vec![
        row(action(0, "on_charged_hit", "freeze_random", None, Some(2000), Some(1), 20), &[]),
        row(action(0, "on_charged_hit", "sword", Some(5000), None, None, 10), &[]),
    ];
    assert_eq!(
        generated_properties(&item(0, 0), &vec![], &rows),
        "蓄力攻击命中后：剑势+5点，并冻结对手随机1件道具2秒"
    );
    assert_eq!(generated_properties(&item(110000, 7000), &vec![], &vec![]), "攻击力110；发动间隔7");
    assert_eq!(fallback_properties(&item(0, 0)), "暂无可由结构化表生成的属性信息");
}

#[test]
fn generated_text_with_rows_ignores_the_items_numbers() {
    let rows = vec![row(action(0, "battle_start", "start_sword", Some(5000), None, None, 1), &[])];
    let a = generated_properties(&item(0, 0), &vec![], &rows);
    assert_eq!(a, generated_properties(&item(110000, 7000), &vec![], &rows));
    assert_eq!(a, "战斗初始剑势+5点");
    assert_eq!(generated_properties(&item(75000, 0), &vec![], &vec![]), fallback_properties(&item(75000, 0)));
}

#[test]
fn item_description_lines() {
    let rows = vec![row(action(0, "battle_start", "start_sword", Some(5000), None, None, 10), &[])];
    assert_eq!(
        equipment_lines(&item(0, 0), &vec![], &rows, false),
        vec!["名称：冰魄近战武器", "属性：近战武器", "战斗初始剑势+5点"]
    );
    assert_eq!(
        equipment_lines(&item(0, 0), &vec![], &rows, true),
        vec![
            "名称：冰魄近战武器",
            "属性：近战武器",
            "",
            "缩写：冰魄",
            "背包占用：1*3",
            "关联附属属性：-",
            "",
            "属性详情：战斗初始剑势+5点",
        ]
    );
}

fn star_row(short: &str, full: &str, kind: &str, star: Option<i64>) -> StarRow {
    StarRow { short: short.to_string(), full: full.to_string(), kind_label: kind.to_string(), star }
}

#[test]
fn missing_tier_report() {
    let rows = vec![
        star_row("a", "A", "魂玉", Some(2)),
        star_row("a", "A", "魂玉", Some(1)),
        star_row("a", "A", "魂玉", Some(2)),
        star_row("b", "B", " ", None),
        star_row("c", "C", "护符", Some(1)),
        star_row("c", "C", "护符", Some(2)),
        star_row("c", "C", "护符", Some(3)),
        star_row("c", "C", "护符", Some(4)),
    ];
    let items = gather_stars(&rows);
    assert_eq!(items.len(), 3);
    assert_eq!(items[0].stars, vec![1, 2]);
    assert_eq!(missing_stars(&items[0]), vec![3, 4]);
    assert_eq!(stars_label(&items[1].stars), "-");
    assert_eq!(missing_label(&items[1]), "1/2/3/4");
    assert_eq!(
        star_report(&items, true),
        vec![
            "没有完整 1/2/3/4 星档位的装备：2 件",
            "| 装备 | 缩写 | 类型 | 已有星级 | 缺少星级 |",
            "|---|---|---|---|---|",
            "| A | a | 魂玉 | 1/2 | 3/4 |",
            "| B | b | - | - | 1/2/3/4 |",
            "",
            "已完整写入 1/2/3/4 星档位的装备：1 件",
            "- C（缩写：c，类型：护符）",
        ]
    );
    let complete_only = gather_stars(&rows[4..].iter().map(|r| star_row(&r.short, &r.full, &r.kind_label, r.star)).collect());
    assert_eq!(star_report(&complete_only, false), vec!["所有装备都已有 1/2/3/4 星档位。"]);
}

use battle_sim::csv::{bag_slots_text, csv_text, md_text, merge_doc_rows, parse_doc_rows, DocRow};
use battle_sim::pending::parse_pending;
use battle_sim::query::EffectEntry;
use battle_sim::store::{default_numbers, merge_effects, EffectRow};
use battle_sim::pending::StarProfileRow;

fn doc(name: &str, kind: &str) -> DocRow {
    DocRow {
        name: name.to_string(),
        kind_label: kind.to_string(),
        bag_slots: "1*1".to_string(),
        properties: "旧属性".to_string(),
        tags: "".to_string(),
    }
}

fn doc_tuple(d: &DocRow) -> (String, String, String, String, String) {
    (d.name.clone(), d.kind_label.clone(), d.bag_slots.clone(), d.properties.clone(), d.tags.clone())
}

#[test]
fn pending_block_reads() {
    let items = parse_pending("测试魂玉\n魂玉\n战斗初始剑势+5点").unwrap();
    assert_eq!(items.len(), 1);
    assert_eq!(items[0].short, "测试");
    assert_eq!(items[0].full, "测试魂玉");
    assert_eq!(items[0].kind, "soul");
    assert_eq!((items[0].width, items[0].height), (1, 1));
    assert_eq!(items[0].tags, vec!["剑势"]);
    assert_eq!(items[0].actions.len(), 1);
    assert_eq!(items[0].actions[0].action, "start_sword");
    assert_eq!(items[0].actions[0].amount, Some(5000));
}

#[test]
fn pending_block_without_properties_fails() {
    assert_eq!(parse_pending("孤单魂玉").err(), Some("装备块缺少属性正文：孤单魂玉".to_string()));
}

#[test]
fn document_rows_merge_by_name() {
    let items = parse_pending("乙魂玉\n魂玉\n战斗初始剑势+5点\n---\n丙魂玉\n魂玉\n战斗初始剑势+6点").unwrap();
    let rows = vec![doc("甲", "魂玉"), doc("乙魂玉", "旧")];
    let merged = merge_doc_rows(&rows, &items);
    let got: Vec<_> = merged.iter().map(doc_tuple).collect();
    assert_eq!(got.len(), 3);
    assert_eq!(got[0], doc_tuple(&doc("甲", "魂玉")));
    assert_eq!(
        got[1],
        ("乙魂玉".to_string(), "魂玉".to_string(), "1*1".to_string(), "战斗初始剑势+5点".to_string(), "剑势".to_string())
    );
    assert_eq!(got[2].0, "丙魂玉");
}

#[test]
fn documents_written_and_read_back() {
    let rows = vec![doc("甲", "魂玉"), DocRow { properties: "a,\"b\"".to_string(), ..doc("乙", "护符") }];
    let text = csv_text(&rows);
    assert_eq!(text, "name,type,bag_slots,properties,attribute_tags\n甲,魂玉,1*1,旧属性,\n乙,护符,1*1,\"a,\"\"b\"\"\",\n");
    let back = parse_doc_rows(&text, "图片属性汇总表.csv").unwrap();
    assert_eq!(back.iter().map(doc_tuple).collect::<Vec<_>>(), rows.iter().map(doc_tuple).collect::<Vec<_>>());
    assert_eq!(
        md_text(&rows[..1].iter().map(|d| doc(&d.name, &d.kind_label)).collect()),
        "| 名称 | 类型 | 背包占用 | 属性信息 | 关联附属属性 |\n|---|---|---|---|---|\n| 甲 | 魂玉 | 1*1 | 旧属性 |  |\n"
    );
}

#[test]
fn document_with_a_short_line_fails() {
    let text = "name,type,bag_slots,properties,attribute_tags\n\n甲,魂玉\n";
    assert_eq!(parse_doc_rows(text, "t.csv").err(), Some("t.csv 第 3 行不是 5 列".to_string()));
}

#[test]
fn bag_slots_are_width_by_height() {
    assert_eq!(bag_slots_text(2, 3), "2*3");
}

#[test]
fn effect_rows_take_the_highest_tier() {
    let rows = vec![
        EffectRow { star: 0, key: "k".to_string(), value: 1000 },
        EffectRow { star: 0, key: "m".to_string(), value: 5 },
        EffectRow { star: 2, key: "k".to_string(), value: 3000 },
        EffectRow { star: 2, key: "k".to_string(), value: 4000 },
    ];
    let merged: Vec<(String, u64)> = merge_effects(&rows).into_iter().map(|e: EffectEntry| (e.key, e.value)).collect();
    assert_eq!(merged, vec![("k".to_string(), 4000), ("m".to_string(), 5)]);
}

#[test]
fn default_numbers_come_from_tier_four() {
    let p = |star: i64, attack: u64| StarProfileRow {
        star,
        attack,
        interval: 7000,
        normal_sword: 16,
        freeze_attack_bonus: None,
        charged_enemy_sword: None,
        properties: String::new(),
    };
    assert_eq!(default_numbers(&vec![p(1, 60000), p(4, 210000)]), (210000, 7000));
    assert_eq!(default_numbers(&vec![p(1, 60000)]), (0, 0));
}

#[test]
fn writing_the_same_items_twice_changes_nothing() {
    let items = parse_pending("乙魂玉\n魂玉\n战斗初始剑势+5点\n---\n丙魂玉\n魂玉\n战斗初始剑势+6点\n---\n乙魂玉\n魂玉\n战斗初始剑势+7点").unwrap();
    let rows = vec![doc("甲", "魂玉"), doc("乙魂玉", "旧")];
    let once = merge_doc_rows(&rows, &items);
    let twice = merge_doc_rows(&once, &items);
    assert_eq!(once.iter().map(doc_tuple).collect::<Vec<_>>(), twice.iter().map(doc_tuple).collect::<Vec<_>>());
    assert_eq!(once.len(), 3);
    assert_eq!(once[1].properties, "战斗初始剑势+7点");
}

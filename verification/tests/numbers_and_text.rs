use battle_sim::csv::{csv_field, parse_csv_line};
use battle_sim::num::{format2, format3, int_string};
use battle_sim::stars::{has_star_values, parse_slash_group, properties_for_star};
use battle_sim::effects::infer_effects;

#[test]
fn star_tier_text() {
    assert_eq!(properties_for_star("攻击力10/20/30/40，间隔1.5", 2), "攻击力20，间隔1.5");
}

#[test]
fn star_tier_text_keeps_plain_numbers() {
    assert_eq!(properties_for_star("战斗初始剑势+5点", 3), "战斗初始剑势+5点");
    assert_eq!(properties_for_star("冻结1/1/2/2件", 4), "冻结2件");
}

#[test]
fn slash_groups_read_as_tiers() {
    assert_eq!(parse_slash_group("1/2.5/3/4"), Some(vec![1000, 2500, 3000, 4000]));
    assert_eq!(parse_slash_group("12"), None);
    assert_eq!(parse_slash_group("1//2"), None);
}

#[test]
fn star_values_need_a_varying_group() {
    assert!(has_star_values("攻击力10/20/30/40"));
    assert!(!has_star_values("攻击力10/10/10/10"));
    assert!(!has_star_values("攻击力10"));
}

#[test]
fn quantities_print_with_three_decimals() {
    assert_eq!(format3(6000), "6");
    assert_eq!(format3(1500), "1.5");
    assert_eq!(format3(1250), "1.25");
    assert_eq!(format3(1005), "1.005");
    assert_eq!(format3(0), "0");
}

#[test]
fn quantities_print_rounded_to_hundredths() {
    assert_eq!(format2(6000), "6");
    assert_eq!(format2(1500), "1.5");
    assert_eq!(format2(1255), "1.25");
    assert_eq!(format2(1245), "1.25");
    assert_eq!(format2(999), "1");
    assert_eq!(format2(330), "0.33");
}

#[test]
fn quantities_print_as_the_nearest_binary_number_does() {
    for v in (0u64..20_000).chain([123_456_789, 9_007_199_254_740_991]) {
        let f = v as f64 / 1000.0;
        let expected = if f.fract().abs() < 1e-9 {
            format!("{}", f as i64)
        } else {
            format!("{f:.2}").trim_end_matches('0').trim_end_matches('.').to_string()
        };
        assert_eq!(format2(v), expected, "{v}");
    }
    assert_eq!(format2(2675), "2.67");
    assert_eq!(format2(5), "0.01");
    assert_eq!(format2(125), "0.12");
    assert_eq!(format2(1005), "1");
    assert_eq!(format2(3_662_613_098_945_782_063), "3662613098945782");
}

#[test]
fn whole_numbers_print_with_sign() {
    assert_eq!(int_string(-42), "-42");
    assert_eq!(int_string(0), "0");
    assert_eq!(int_string(i64::MIN), "-9223372036854775808");
}

#[test]
fn csv_fields_quote_when_needed() {
    assert_eq!(csv_field("abc"), "abc");
    assert_eq!(csv_field("a,b"), "\"a,b\"");
    assert_eq!(csv_field("say \"hi\""), "\"say \"\"hi\"\"\"");
}

#[test]
fn csv_line_reads_quoted_fields() {
    assert_eq!(parse_csv_line("a,\"b,c\",\"d\"\"e\""), vec!["a", "b,c", "d\"e"]);
    assert_eq!(parse_csv_line(""), vec![""]);
}

#[test]
fn csv_written_fields_read_back() {
    let fields = vec!["名称", "x,y", "引号\"", "", "末尾"];
    let line: Vec<String> = fields.iter().map(|f| csv_field(f)).collect();
    assert_eq!(parse_csv_line(&line.join(",")), fields);
}

#[test]
fn effects_of_a_freezing_attack() {
    let props = "多重触发2；普通攻击：造成等同于武器攻击力的伤害，剑势+16点，冻结对手随机1件道具1.5秒";
    let effects = infer_effects(props, "freezing_normal_weapon_attack");
    let got: Vec<(&str, u64, &str)> = effects.iter().map(|e| (e.key, e.value, e.unit)).collect();
    assert_eq!(
        got,
        vec![
            ("multi_trigger", 2000, "次"),
            ("normal_sword", 16000, "点"),
            ("freeze_count", 1000, "件"),
            ("freeze_duration", 1500, "秒"),
        ]
    );
}

#[test]
fn effects_of_an_unknown_action_are_none() {
    assert!(infer_effects("战斗初始剑势+5点", "mark_used").is_empty());
}

#[test]
fn text_without_slashes_is_the_same_at_every_tier() {
    let t = "普通攻击：造成等同于武器攻击力的伤害，剑势+16点，冻结对手随机1件道具1.5秒";
    for star in 0..6 {
        assert_eq!(properties_for_star(t, star), t);
    }
}

#[test]
fn rewriting_for_a_tier_twice_changes_nothing() {
    let t = "攻击力10/20.5/30/40，冻结1/1/2/2件，5/，间隔1.5";
    for s in 0..6 {
        let once = properties_for_star(t, s);
        for s2 in 0..6 {
            assert_eq!(properties_for_star(&once, s2), once);
        }
    }
    assert_eq!(properties_for_star(t, 2), "攻击力20.5，冻结1件，5/，间隔1.5");
}

use battle_sim::board::{adjacent, backtrack_tile, neighbors, normalize_label, parse_row, tile_component};
use battle_sim::catalog::{all, star_profile, Def, StarProfile};
use battle_sim::layout::{build_items, component, parse_input, sample_input, split_star_label, to_grid};

fn catalog_defs() -> Vec<Def> {
    all().iter().map(|e| e.def).collect()
}

fn catalog_names() -> Vec<&'static str> {
    catalog_defs().iter().map(|d| d.short).collect()
}

fn catalog_profiles() -> Vec<(String, StarProfile)> {
    let mut out = Vec::new();
    for name in ["冰魄", "龙弧", "烛神令"] {
        for star in 1..=4u8 {
            if let Some(p) = star_profile(name, star) {
                out.push((name.to_string(), p));
            }
        }
    }
    out
}

fn grid(rows: [[&str; 4]; 5]) -> Vec<Vec<String>> {
    rows.iter().map(|r| r.iter().map(|s| s.to_string()).collect()).collect()
}

#[test]
fn row_with_spaced_labels() {
    let names = ["冰魄", "通达", "龙弧"];
    assert_eq!(parse_row("第3行\t冰魄 通达 龙弧 龙弧", &names), vec!["冰魄", "通达", "龙弧", "龙弧"]);
}

#[test]
fn row_with_bars_and_stars() {
    let names = ["冰魄", "通达", "龙弧"];
    assert_eq!(parse_row("| 冰魄2 | 通达 | 龙弧4 | 龙弧4 |", &names), vec!["冰魄2", "通达", "龙弧4", "龙弧4"]);
}

#[test]
fn row_without_spaces() {
    let names = ["冰魄", "通达", "龙弧"];
    assert_eq!(parse_row("冰魄通达龙弧3龙弧", &names), vec!["冰魄", "通达", "龙弧3", "龙弧"]);
}

#[test]
fn labels_are_names_or_starred_names() {
    let names = ["冰魄", "通达"];
    assert_eq!(normalize_label("冰魄", &names), Some("冰魄".to_string()));
    assert_eq!(normalize_label("冰魄12", &names), Some("冰魄12".to_string()));
    assert_eq!(normalize_label("冰魄x", &names), None);
    assert_eq!(normalize_label("石头", &names), None);
}

#[test]
fn neighbors_stay_on_the_board() {
    assert_eq!(neighbors(0, 0), vec![(1, 0), (0, 1)]);
    assert_eq!(neighbors(4, 3), vec![(3, 3), (4, 2)]);
    assert_eq!(neighbors(2, 1), vec![(1, 1), (3, 1), (2, 0), (2, 2)]);
}

#[test]
fn adjacency_is_side_sharing_and_symmetric() {
    let a = [(0usize, 0usize), (0, 1)];
    let b = [(1usize, 1usize)];
    let c = [(1usize, 2usize)];
    assert!(adjacent(&a, &b));
    assert!(adjacent(&b, &a));
    assert!(!adjacent(&a, &c));
    assert!(!adjacent(&c, &a));
}

#[test]
fn square_group_cuts_into_one_piece() {
    let comp = vec![(4, 3), (3, 2), (3, 3), (4, 2)];
    assert_eq!(tile_component(&comp, 2, 2), Some(vec![vec![(3, 2), (3, 3), (4, 2), (4, 3)]]));
}

#[test]
fn long_item_cuts_lying_down() {
    let comp = vec![(4, 1), (4, 2), (4, 3)];
    assert_eq!(tile_component(&comp, 1, 3), Some(vec![vec![(4, 1), (4, 2), (4, 3)]]));
}

#[test]
fn three_cells_do_not_make_a_square() {
    let comp = vec![(0, 0), (0, 1), (1, 0)];
    assert_eq!(tile_component(&comp, 2, 2), None);
    assert_eq!(backtrack_tile(&comp, &vec![(2, 2)]), None);
}

#[test]
fn one_cell_items_keep_group_order() {
    let comp = vec![(2, 1), (3, 1)];
    assert_eq!(tile_component(&comp, 1, 1), Some(vec![vec![(2, 1)], vec![(3, 1)]]));
}

#[test]
fn star_labels_split() {
    let names = ["冰魄", "通达"];
    assert_eq!(split_star_label("冰魄", &names), Ok(("冰魄".to_string(), None)));
    assert_eq!(split_star_label("冰魄3", &names), Ok(("冰魄".to_string(), Some(3))));
    assert_eq!(split_star_label("冰魄03", &names), Ok(("冰魄".to_string(), Some(3))));
    assert_eq!(split_star_label("冰魄5", &names), Err("冰魄5 的星级必须是 1/2/3/4".to_string()));
    assert_eq!(split_star_label("冰魄0", &names), Err("冰魄0 的星级必须是 1/2/3/4".to_string()));
    assert_eq!(split_star_label("冰魄300", &names), Err("冰魄300 的星级数字无效".to_string()));
    assert_eq!(split_star_label("石头", &names), Err("未知装备词条: 石头".to_string()));
}

#[test]
fn sample_boards_read() {
    let names = catalog_names();
    let (me, enemy) = parse_input(sample_input(), &names).expect("sample reads");
    assert_eq!(me[0], vec!["百战", "冰魄", "通达", "冰魄"]);
    assert_eq!(me[4], vec!["冻结", "续命术", "冰髓", "冰髓"]);
    assert_eq!(enemy[2], vec!["冰魄", "通达", "龙弧", "龙弧"]);
    assert_eq!(enemy[4], vec!["冰魄", "烛神令", "烛神令", "烛神令"]);
}

#[test]
fn missing_rows_are_reported() {
    let names = catalog_names();
    let text = "我方：\n百战 冰魄 通达 冰魄\n敌方：\n冰魄 通达 龙弧 龙弧\n冰魄 通达 龙弧 龙弧\n";
    assert_eq!(
        parse_input(text, &names),
        Err("需要解析到双方各 5 行、每行 4 列；当前我方 1 行，敌方 2 行".to_string())
    );
}

#[test]
fn rows_before_a_heading_are_ignored() {
    let names = catalog_names();
    let text = "百战 冰魄 通达 冰魄\n";
    assert_eq!(
        parse_input(text, &names),
        Err("需要解析到双方各 5 行、每行 4 列；当前我方 0 行，敌方 0 行".to_string())
    );
}

#[test]
fn groups_follow_equal_labels() {
    let g = to_grid(&grid([
        ["振魄", "冰髓", "冰髓", "白虎之力"],
        ["快意", "冰髓", "冰髓", "穿颅"],
        ["冰魄", "通达", "龙弧", "龙弧"],
        ["冰魄", "通达", "龙弧", "龙弧"],
        ["冰魄", "烛神令", "烛神令", "烛神令"],
    ]));
    let mut seen = vec![false; 20];
    let comp = component(&g, &mut seen, 4, 1);
    assert_eq!(comp, vec![(4, 1), (4, 2), (4, 3)]);
    assert!(seen[17] && seen[18] && seen[19]);
    assert_eq!(seen.iter().filter(|x| **x).count(), 3);
    let comp = component(&g, &mut seen, 0, 1);
    assert_eq!(comp, vec![(0, 1), (1, 1), (0, 2), (1, 2)]);
}

#[test]
fn sample_boards_place_items() {
    let names = catalog_names();
    let defs = catalog_defs();
    let profiles = catalog_profiles();
    let (me, enemy) = parse_input(sample_input(), &names).unwrap();
    let items = build_items(&me, &defs, &profiles).expect("our board builds");
    let placed: Vec<(&str, Vec<(usize, usize)>)> = items.iter().map(|p| (p.def.short, p.cells.clone())).collect();
    assert_eq!(placed.len(), 13);
    assert_eq!(placed[0], ("百战", vec![(0, 0)]));
    assert_eq!(placed[1], ("冰魄", vec![(0, 1), (1, 1), (2, 1)]));
    assert_eq!(placed[3], ("冰魄", vec![(0, 3), (1, 3), (2, 3)]));
    assert_eq!(placed[10], ("冰髓", vec![(3, 2), (3, 3), (4, 2), (4, 3)]));
    let items = build_items(&enemy, &defs, &profiles).expect("enemy board builds");
    let placed: Vec<(&str, Vec<(usize, usize)>)> = items.iter().map(|p| (p.def.short, p.cells.clone())).collect();
    assert_eq!(placed.len(), 10);
    assert_eq!(placed[6], ("通达", vec![(2, 1)]));
    assert_eq!(placed[7], ("通达", vec![(3, 1)]));
    assert_eq!(placed[9], ("烛神令", vec![(4, 1), (4, 2), (4, 3)]));
}

#[test]
fn star_labels_take_tier_profiles() {
    let defs = catalog_defs();
    let profiles = catalog_profiles();
    let g = to_grid(&grid([
        ["冰魄2", "百战", "百战", "百战"],
        ["冰魄2", "百战", "百战", "百战"],
        ["冰魄2", "百战", "百战", "百战"],
        ["百战", "百战", "百战", "百战"],
        ["百战", "百战", "百战", "百战"],
    ]));
    let items = build_items(&g, &defs, &profiles).unwrap();
    assert_eq!(items[0].def.short, "冰魄");
    assert_eq!(items[0].star, Some(2));
    assert_eq!(items[0].star_profile.map(|p| p.attack), Some(110000));
    assert_eq!(items.len(), 18);
}

#[test]
fn board_errors() {
    let defs = catalog_defs();
    let profiles = catalog_profiles();
    let mut rows = [["百战"; 4]; 5];
    rows[0][0] = "通达2";
    assert_eq!(
        build_items(&to_grid(&grid(rows)), &defs, &profiles).err(),
        Some("通达 暂未写入 2 星属性，无法按星级模拟".to_string())
    );
    let mut rows = [["百战"; 4]; 5];
    rows[2][2] = "冰髓";
    rows[2][3] = "冰髓";
    rows[3][2] = "冰髓";
    assert_eq!(
        build_items(&to_grid(&grid(rows)), &defs, &profiles).err(),
        Some("无法把 冰髓 的 3 个格子切成 2*2 或旋转形状".to_string())
    );
    let mut rows = [["百战"; 4]; 5];
    rows[4][3] = "石头";
    assert_eq!(
        build_items(&to_grid(&grid(rows)), &defs, &profiles).err(),
        Some("未知装备词条: 石头".to_string())
    );
}

#[test]
fn cutting_tries_the_next_shape() {
    let cells = vec![(0, 0), (0, 1), (0, 2), (1, 0), (1, 1), (1, 2)];
    assert_eq!(
        backtrack_tile(&cells, &vec![(2, 2), (2, 1)]),
        Some(vec![vec![(0, 2), (1, 2)], vec![(0, 0), (0, 1), (1, 0), (1, 1)]])
    );
    assert_eq!(backtrack_tile(&cells, &vec![(2, 2)]), None);
}

#[test]
fn cutting_far_from_the_origin() {
    let cells = vec![(70000, 70000), (70000, 70001)];
    assert_eq!(backtrack_tile(&cells, &vec![(1, 2)]), Some(vec![vec![(70000, 70000), (70000, 70001)]]));
}

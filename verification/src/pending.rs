//! Reading the pending-equipment document: blocks separated by `---`, each a title (name
//! and kind, on one line or two), optional meta lines, and property lines.
use vstd::prelude::*;
use crate::text;
use crate::num;
use crate::stars;
use crate::actions::{self, Action};

verus! {

/// A star tier of an item, read from its property text. Attack and interval are in
/// thousandths.
#[derive(Clone, Debug)]
pub struct StarProfileRow {
    pub star: i64,
    pub attack: u64,
    pub interval: u64,
    pub normal_sword: i64,
    pub freeze_attack_bonus: Option<i64>,
    pub charged_enemy_sword: Option<i64>,
    pub properties: String,
}

pub struct StarProfileRowView {
    pub star: int,
    pub attack: u64,
    pub interval: u64,
    pub normal_sword: i64,
    pub freeze_attack_bonus: Option<i64>,
    pub charged_enemy_sword: Option<i64>,
    pub properties: Seq<char>,
}

impl View for StarProfileRow {
    type V = StarProfileRowView;

    open spec fn view(&self) -> StarProfileRowView {
        StarProfileRowView {
            star: self.star as int,
            attack: self.attack,
            interval: self.interval,
            normal_sword: self.normal_sword,
            freeze_attack_bonus: self.freeze_attack_bonus,
            charged_enemy_sword: self.charged_enemy_sword,
            properties: self.properties@,
        }
    }
}

pub open spec fn profile_views(v: Seq<StarProfileRow>) -> Seq<StarProfileRowView> {
    v.map_values(|p: StarProfileRow| p@)
}

// ---------------------------------------------------------------------------
// Lines and titles
// ---------------------------------------------------------------------------

/// A kind label on a line of its own.
pub open spec fn spec_is_kind_label(l: Seq<char>) -> bool {
    l == "魂玉"@ || l == "护符"@ || l == "药品"@ || l == "护甲"@ || text::starts_with(l, "近战武器"@)
}

/// A meta line (combat power), skipped.
pub open spec fn spec_is_meta_line(l: Seq<char>) -> bool {
    text::starts_with(l, "战力:"@) || text::starts_with(l, "战力："@)
}

pub fn is_kind_label(line: &str) -> (r: bool)
    ensures
        r == spec_is_kind_label(line@),
{
    let l = text::chars_of(line);
    let p = text::chars_of("近战武器");
    text::eq_str(&l, "魂玉") || text::eq_str(&l, "护符") || text::eq_str(&l, "药品") || text::eq_str(
        &l,
        "护甲",
    ) || text::starts_with_exec(&l, &p)
}

pub fn is_meta_line(line: &str) -> (r: bool)
    ensures
        r == spec_is_meta_line(line@),
{
    let l = text::chars_of(line);
    let a = text::chars_of("战力:");
    let b = text::chars_of("战力：");
    text::starts_with_exec(&l, &a) || text::starts_with_exec(&l, &b)
}

/// The first position at or after `i` that is not a meta line.
pub open spec fn skip_meta(lines: Seq<Seq<char>>, i: int) -> int
    decreases lines.len() - i,
{
    if 0 <= i < lines.len() && spec_is_meta_line(lines[i]) {
        skip_meta(lines, i + 1)
    } else {
        i
    }
}

/// A one-line title: the name (its words joined without spaces) and the kind label (the
/// last word).
pub open spec fn spec_parse_inline_header(h: Seq<char>) -> Result<(Seq<char>, Seq<char>), Seq<char>> {
    let parts = text::split_ws(h);
    if parts.len() == 0 {
        Err("装备标题为空"@)
    } else if parts.len() == 1 {
        Err("装备标题缺少名称："@ + h)
    } else {
        Ok((text::join(parts.drop_last(), seq![]), parts.last()))
    }
}

/// The title of a block: name, kind label and the position of the first property line.
pub open spec fn spec_parse_block_head(lines: Seq<Seq<char>>) -> Result<
    (Seq<char>, Seq<char>, int),
    Seq<char>,
> {
    if lines.len() >= 2 && spec_is_kind_label(lines[1]) {
        Ok((lines[0], lines[1], skip_meta(lines, 2)))
    } else {
        match spec_parse_inline_header(lines[0]) {
            Ok((full, kind)) => Ok((full, kind, skip_meta(lines, 1))),
            Err(e) => Err(e),
        }
    }
}

/// Reads a one-line title.
pub fn parse_inline_header(header: &str) -> (r: Result<(String, String), String>)
    ensures
        match r {
            Ok((full, kind)) => spec_parse_inline_header(header@) == Ok::<
                (Seq<char>, Seq<char>),
                Seq<char>,
            >((full@, kind@)),
            Err(e) => spec_parse_inline_header(header@) == Err::<(Seq<char>, Seq<char>), Seq<char>>(
                e@,
            ),
        },
{
    let h = text::chars_of(header);
    let mut parts = text::split_ws_exec(&h);
    let ghost ps = text::split_ws(header@);
    if parts.len() == 0 {
        return Err(text::string_from("装备标题为空"));
    }
    if parts.len() == 1 {
        let mut e = text::string_from("装备标题缺少名称：");
        text::push_str(&mut e, header);
        return Err(e);
    }
    let kind = parts.pop().unwrap();
    assert(parts@.map_values(|v: Vec<char>| v@) =~= ps.drop_last());
    let full = text::join_exec(&parts, "");
    assert(""@ =~= Seq::<char>::empty()) by {
        reveal_strlit("");
    }
    Ok((full, text::string_of(&kind)))
}

fn skip_meta_exec(lines: &Vec<Vec<char>>, start: usize) -> (r: usize)
    requires
        start <= lines@.len(),
    ensures
        r == skip_meta(lines@.map_values(|v: Vec<char>| v@), start as int),
{
    let ghost ls = lines@.map_values(|v: Vec<char>| v@);
    let mut i = start;
    while i < lines.len() && is_meta_chars(&lines[i])
        invariant
            start <= i <= lines@.len(),
            ls == lines@.map_values(|v: Vec<char>| v@),
            skip_meta(ls, start as int) == skip_meta(ls, i as int),
        decreases lines@.len() - i,
    {
        i += 1;
    }
    i
}

fn is_meta_chars(l: &Vec<char>) -> (r: bool)
    ensures
        r == spec_is_meta_line(l@),
{
    let s = text::string_of(l);
    is_meta_line(s.as_str())
}

/// Reads the title of a block (`lines` is not empty).
pub fn parse_block_head(lines: &Vec<Vec<char>>) -> (r: Result<(String, String, usize), String>)
    requires
        lines@.len() > 0,
    ensures
        match r {
            Ok((full, kind, start)) => spec_parse_block_head(lines@.map_values(|v: Vec<char>| v@))
                == Ok::<(Seq<char>, Seq<char>, int), Seq<char>>((full@, kind@, start as int)),
            Err(e) => spec_parse_block_head(lines@.map_values(|v: Vec<char>| v@)) == Err::<
                (Seq<char>, Seq<char>, int),
                Seq<char>,
            >(e@),
        },
{
    let ghost ls = lines@.map_values(|v: Vec<char>| v@);
    if lines.len() >= 2 {
        let second = text::string_of(&lines[1]);
        if is_kind_label(second.as_str()) {
            let start = skip_meta_exec(lines, 2);
            return Ok((text::string_of(&lines[0]), second, start));
        }
    }
    let first = text::string_of(&lines[0]);
    match parse_inline_header(first.as_str()) {
        Ok((full, kind)) => {
            let start = skip_meta_exec(lines, 1);
            Ok((full, kind, start))
        },
        Err(e) => Err(e),
    }
}

// ---------------------------------------------------------------------------
// Properties, names, kinds and tags
// ---------------------------------------------------------------------------

/// A property line without its trailing semicolons (ASCII ones first, then full-width).
pub open spec fn clean_property(l: Seq<char>) -> Seq<char> {
    text::strip_end_all(text::strip_end_all(l, ';'), '；')
}

/// The non-empty cleaned property lines.
pub open spec fn property_parts(lines: Seq<Seq<char>>) -> Seq<Seq<char>>
    decreases lines.len(),
{
    if lines.len() == 0 {
        seq![]
    } else if clean_property(lines.last()).len() > 0 {
        property_parts(lines.drop_last()).push(clean_property(lines.last()))
    } else {
        property_parts(lines.drop_last())
    }
}

/// The property lines joined by full-width semicolons.
pub open spec fn spec_normalize_properties(lines: Seq<Seq<char>>) -> Seq<char> {
    text::join(property_parts(lines), "；"@)
}

/// Joins property lines with `'；'`, dropping trailing semicolons and empty lines.
pub fn normalize_properties(lines: &Vec<Vec<char>>, from: usize) -> (r: String)
    requires
        from <= lines@.len(),
    ensures
        r@ == spec_normalize_properties(lines@.map_values(|v: Vec<char>| v@).subrange(
            from as int,
            lines@.len() as int,
        )),
{
    let ghost ls = lines@.map_values(|v: Vec<char>| v@).subrange(from as int, lines@.len() as int);
    let mut parts: Vec<Vec<char>> = Vec::new();
    let mut k = from;
    assert(ls.subrange(0, 0) =~= Seq::<Seq<char>>::empty());
    while k < lines.len()
        invariant
            from <= k <= lines@.len(),
            ls == lines@.map_values(|v: Vec<char>| v@).subrange(from as int, lines@.len() as int),
            parts@.map_values(|v: Vec<char>| v@) == property_parts(ls.subrange(0, k - from)),
        decreases lines@.len() - k,
    {
        let ghost pre = ls.subrange(0, k + 1 - from);
        assert(pre.drop_last() =~= ls.subrange(0, k - from));
        assert(pre.last() == lines@[k as int]@);
        let a = text::strip_end_all_exec(&lines[k], ';');
        let b = text::strip_end_all_exec(&a, '；');
        if b.len() > 0 {
            let ghost before = parts@;
            parts.push(b);
            assert(parts@.map_values(|v: Vec<char>| v@) =~= before.map_values(|v: Vec<char>| v@).push(
                b@,
            ));
        }
        k += 1;
    }
    assert(ls.subrange(0, lines@.len() - from) =~= ls);
    text::join_exec(&parts, "；")
}

/// The short name: the full name without its kind label, when that leaves something.
pub open spec fn spec_short_name(full: Seq<char>, kind: Seq<char>) -> Seq<char> {
    if text::ends_with(full, kind) && full.len() > kind.len() {
        full.subrange(0, full.len() - kind.len())
    } else {
        full
    }
}

pub fn short_name(full: &str, kind_label: &str) -> (r: String)
    ensures
        r@ == spec_short_name(full@, kind_label@),
{
    let f = text::chars_of(full);
    let k = text::chars_of(kind_label);
    if text::ends_with_exec(&f, &k) && f.len() > k.len() {
        text::string_of(&text::slice_vec(&f, 0, f.len() - k.len()))
    } else {
        text::string_of(&f)
    }
}

/// The stored kind and bag shape (width, height) of a kind label.
pub open spec fn spec_kind_shape(l: Seq<char>) -> (Seq<char>, int, int) {
    if text::starts_with(l, "近战武器"@) {
        ("weapon"@, 1, 3)
    } else if l == "护符"@ {
        ("charm"@, 2, 2)
    } else if l == "药品"@ {
        ("potion"@, 1, 1)
    } else if l == "护甲"@ {
        ("armor"@, 2, 3)
    } else {
        ("soul"@, 1, 1)
    }
}

pub fn kind_shape(kind_label: &str) -> (r: (String, i64, i64))
    ensures
        (r.0@, r.1 as int, r.2 as int) == spec_kind_shape(kind_label@),
{
    let l = text::chars_of(kind_label);
    let w = text::chars_of("近战武器");
    if text::starts_with_exec(&l, &w) {
        (text::string_from("weapon"), 1, 3)
    } else if text::eq_str(&l, "护符") {
        (text::string_from("charm"), 2, 2)
    } else if text::eq_str(&l, "药品") {
        (text::string_from("potion"), 1, 1)
    } else if text::eq_str(&l, "护甲") {
        (text::string_from("armor"), 2, 3)
    } else {
        (text::string_from("soul"), 1, 1)
    }
}

pub open spec fn tag_if(p: Seq<char>, tag: &str, keyword: &str) -> Seq<Seq<char>> {
    if text::contains(p, keyword@) {
        seq![tag@]
    } else {
        seq![]
    }
}

/// The attribute tags of a property text: each tag whose keyword the text holds, in the
/// fixed order of the tag table.
pub open spec fn spec_infer_tags(p: Seq<char>) -> Seq<Seq<char>> {
    tag_if(p, "武器攻击力", "攻击力") + tag_if(p, "普通攻击", "普通攻击") + tag_if(p, "蓄力攻击", "蓄力攻击")
        + tag_if(p, "剑势", "剑势") + tag_if(p, "冻结", "冻结") + tag_if(p, "减速", "减速") + tag_if(
        p,
        "暴击",
        "暴击",
    ) + tag_if(p, "加速", "加速") + tag_if(p, "治疗", "治疗") + tag_if(p, "充能", "充能") + tag_if(
        p,
        "振刀",
        "振刀",
    ) + tag_if(p, "护甲", "护甲") + tag_if(p, "减伤", "减伤") + tag_if(p, "吸血", "吸血") + tag_if(
        p,
        "灼伤",
        "灼伤",
    ) + tag_if(p, "中毒", "中毒")
}

fn push_tag(out: &mut Vec<String>, p: &[char], tag: &str, keyword: &str)
    ensures
        text::strs(final(out)@) == text::strs(old(out)@) + tag_if(p@, tag, keyword),
{
    let k = text::chars_of(keyword);
    let ghost before = out@;
    if text::contains_exec(p, &k) {
        out.push(text::string_from(tag));
    }
    assert(text::strs(out@) =~= text::strs(before) + tag_if(p@, tag, keyword));
}

pub fn infer_tags(properties: &str) -> (r: Vec<String>)
    ensures
        text::strs(r@) == spec_infer_tags(properties@),
{
    let p = text::chars_of(properties);
    let mut out: Vec<String> = Vec::new();
    assert(text::strs(out@) =~= Seq::<Seq<char>>::empty());
    push_tag(&mut out, &p, "武器攻击力", "攻击力");
    push_tag(&mut out, &p, "普通攻击", "普通攻击");
    push_tag(&mut out, &p, "蓄力攻击", "蓄力攻击");
    push_tag(&mut out, &p, "剑势", "剑势");
    push_tag(&mut out, &p, "冻结", "冻结");
    push_tag(&mut out, &p, "减速", "减速");
    push_tag(&mut out, &p, "暴击", "暴击");
    push_tag(&mut out, &p, "加速", "加速");
    push_tag(&mut out, &p, "治疗", "治疗");
    push_tag(&mut out, &p, "充能", "充能");
    push_tag(&mut out, &p, "振刀", "振刀");
    push_tag(&mut out, &p, "护甲", "护甲");
    push_tag(&mut out, &p, "减伤", "减伤");
    push_tag(&mut out, &p, "吸血", "吸血");
    push_tag(&mut out, &p, "灼伤", "灼伤");
    push_tag(&mut out, &p, "中毒", "中毒");
    assert(text::strs(out@) =~= spec_infer_tags(properties@));
    out
}

// ---------------------------------------------------------------------------
// Star profiles
// ---------------------------------------------------------------------------

pub open spec fn trunc(v: Option<u64>) -> Option<i64> {
    actions::whole(v)
}

/// The sword a normal attack gives: the number between `"剑势+"` and `"点"` after
/// `"普通攻击"`, whole part; 0 when absent.
pub open spec fn spec_normal_sword_for_profile(p: Seq<char>) -> i64 {
    match text::after(p, "普通攻击"@) {
        Some(n) => match num::number_between(n, "剑势+"@, "点"@) {
            Some(v) => (v / 1000) as i64,
            None => 0,
        },
        None => 0,
    }
}

/// The per-freeze attack bonus of a text that speaks of triggering freezes.
pub open spec fn spec_freeze_attack_bonus_for_profile(p: Seq<char>) -> Option<i64> {
    if text::contains(p, "触发冻结"@) && text::contains(p, "所有武器+"@) {
        trunc(num::number_between(p, "所有武器+"@, "点"@))
    } else {
        None
    }
}

/// The enemy sword a charged attack takes away.
pub open spec fn spec_charged_enemy_sword_for_profile(p: Seq<char>) -> Option<i64> {
    match text::after(p, "蓄力攻击"@) {
        Some(c) => trunc(num::number_between(c, "对手剑势-"@, "点"@)),
        None => None,
    }
}

/// The attack of a weapon tier whose text lists star attributes; 0 otherwise.
pub open spec fn spec_base_attack_for_profile(kind: Seq<char>, p: Seq<char>) -> u64 {
    if kind != "weapon"@ || !text::contains(p, "星级属性"@) {
        0
    } else {
        match num::number_between(p, "攻击力"@, "，"@) {
            Some(v) => v,
            None => match num::number_between(p, "攻击力"@, "；"@) {
                Some(v) => v,
                None => 0,
            },
        }
    }
}

pub open spec fn spec_interval_for_profile(p: Seq<char>) -> u64 {
    match num::number_between(p, "发动间隔"@, "，"@) {
        Some(v) => v,
        None => match num::number_between(p, "发动间隔"@, "；"@) {
            Some(v) => v,
            None => 0,
        },
    }
}

pub fn normal_sword_for_profile(properties: &str) -> (r: i64)
    ensures
        r == spec_normal_sword_for_profile(properties@),
{
    let p = text::chars_of(properties);
    let m = text::chars_of("普通攻击");
    match text::after_exec(&p, &m) {
        Some(n) => match num::number_between_exec(&n, "剑势+", "点") {
            Some(v) => (v / 1000) as i64,
            None => 0,
        },
        None => 0,
    }
}

fn trunc_exec(v: Option<u64>) -> (r: Option<i64>)
    ensures
        r == trunc(v),
{
    match v {
        Some(x) => Some((x / 1000) as i64),
        None => None,
    }
}

pub fn freeze_attack_bonus_for_profile(properties: &str) -> (r: Option<i64>)
    ensures
        r == spec_freeze_attack_bonus_for_profile(properties@),
{
    let p = text::chars_of(properties);
    let a = text::chars_of("触发冻结");
    let b = text::chars_of("所有武器+");
    if text::contains_exec(&p, &a) && text::contains_exec(&p, &b) {
        trunc_exec(num::number_between_exec(&p, "所有武器+", "点"))
    } else {
        None
    }
}

pub fn charged_enemy_sword_for_profile(properties: &str) -> (r: Option<i64>)
    ensures
        r == spec_charged_enemy_sword_for_profile(properties@),
{
    let p = text::chars_of(properties);
    let m = text::chars_of("蓄力攻击");
    match text::after_exec(&p, &m) {
        Some(c) => trunc_exec(num::number_between_exec(&c, "对手剑势-", "点")),
        None => None,
    }
}

pub fn base_attack_for_profile(kind: &str, properties: &str) -> (r: u64)
    ensures
        r == spec_base_attack_for_profile(kind@, properties@),
{
    let k = text::chars_of(kind);
    let p = text::chars_of(properties);
    let m = text::chars_of("星级属性");
    if !text::eq_str(&k, "weapon") || !text::contains_exec(&p, &m) {
        return 0;
    }
    match num::number_between_exec(&p, "攻击力", "，") {
        Some(v) => v,
        None => match num::number_between_exec(&p, "攻击力", "；") {
            Some(v) => v,
            None => 0,
        },
    }
}

fn interval_for_profile(p: &[char]) -> (r: u64)
    ensures
        r == spec_interval_for_profile(p@),
{
    match num::number_between_exec(p, "发动间隔", "，") {
        Some(v) => v,
        None => match num::number_between_exec(p, "发动间隔", "；") {
            Some(v) => v,
            None => 0,
        },
    }
}

/// The profile of one star tier, read from the tier's text `pt`.
pub open spec fn profile_of(kind: Seq<char>, pt: Seq<char>, star: int) -> StarProfileRowView {
    StarProfileRowView {
        star: star,
        attack: spec_base_attack_for_profile(kind, pt),
        interval: spec_interval_for_profile(pt),
        normal_sword: spec_normal_sword_for_profile(pt),
        freeze_attack_bonus: spec_freeze_attack_bonus_for_profile(pt),
        charged_enemy_sword: spec_charged_enemy_sword_for_profile(pt),
        properties: num::nat_str(star as nat) + "星："@ + pt,
    }
}

/// The star profiles of an item: none when its text has no values that differ by tier,
/// else one for each tier 1 to 4, read from the tier's text.
pub open spec fn spec_infer_star_profiles(kind: Seq<char>, p: Seq<char>) -> Seq<StarProfileRowView> {
    if !stars::spec_has_star_values(p) {
        seq![]
    } else {
        Seq::new(
            4,
            |k: int| profile_of(kind, stars::spec_properties_for_star(p, (k + 1) as nat), k + 1),
        )
    }
}

pub fn infer_star_profiles(kind: &str, properties: &str) -> (r: Vec<StarProfileRow>)
    ensures
        profile_views(r@) == spec_infer_star_profiles(kind@, properties@),
{
    let p = text::chars_of(properties);
    let mut out: Vec<StarProfileRow> = Vec::new();
    if !stars::has_star_values_chars(&p) {
        assert(profile_views(out@) =~= Seq::<StarProfileRowView>::empty());
        return out;
    }
    let mut star: u64 = 1;
    while star <= 4
        invariant
            1 <= star <= 5,
            stars::spec_has_star_values(properties@),
            p@ == properties@,
            out@.len() == star - 1,
            forall|k: int| 0 <= k < out@.len() ==> (#[trigger] out@[k])@ == profile_of(
                kind@,
                stars::spec_properties_for_star(properties@, (k + 1) as nat),
                k + 1,
            ),
        decreases 5 - star,
    {
        let pt = stars::properties_for_star_chars(&p, star);
        let ps = text::string_of(&pt);
        let mut label = String::new();
        num::push_nat(&mut label, star);
        text::push_str(&mut label, "星：");
        text::push_chars(&mut label, &pt);
        let row = StarProfileRow {
            star: star as i64,
            attack: base_attack_for_profile(kind, ps.as_str()),
            interval: interval_for_profile(&pt),
            normal_sword: normal_sword_for_profile(ps.as_str()),
            freeze_attack_bonus: freeze_attack_bonus_for_profile(ps.as_str()),
            charged_enemy_sword: charged_enemy_sword_for_profile(ps.as_str()),
            properties: label,
        };
        assert(row@ == profile_of(kind@, pt@, star as int)) by {
            assert(row.properties@ =~= num::nat_str(star as nat) + "星："@ + pt@);
        }
        out.push(row);
        star += 1;
    }
    assert(profile_views(out@) =~= spec_infer_star_profiles(kind@, properties@));
    out
}

// ---------------------------------------------------------------------------
// Blocks
// ---------------------------------------------------------------------------

/// One item of the pending document.
#[derive(Clone, Debug)]
pub struct PendingItem {
    pub short: String,
    pub full: String,
    pub kind: String,
    pub kind_label: String,
    pub width: i64,
    pub height: i64,
    pub properties: String,
    pub tags: Vec<String>,
    pub star_profiles: Vec<StarProfileRow>,
    pub actions: Vec<Action>,
}

pub struct PendingItemView {
    pub short: Seq<char>,
    pub full: Seq<char>,
    pub kind: Seq<char>,
    pub kind_label: Seq<char>,
    pub width: int,
    pub height: int,
    pub properties: Seq<char>,
    pub tags: Seq<Seq<char>>,
    pub star_profiles: Seq<StarProfileRowView>,
    pub actions: Seq<actions::ActionView>,
}

impl View for PendingItem {
    type V = PendingItemView;

    open spec fn view(&self) -> PendingItemView {
        PendingItemView {
            short: self.short@,
            full: self.full@,
            kind: self.kind@,
            kind_label: self.kind_label@,
            width: self.width as int,
            height: self.height as int,
            properties: self.properties@,
            tags: text::strs(self.tags@),
            star_profiles: profile_views(self.star_profiles@),
            actions: actions::views(self.actions@),
        }
    }
}

/// A line of a block: trimmed, then without leading byte-order marks.
pub open spec fn clean_line(l: Seq<char>) -> Seq<char> {
    text::strip_start_all(text::trim(l), '\u{feff}')
}

/// The non-empty cleaned lines of a block.
pub open spec fn block_lines(ls: Seq<Seq<char>>) -> Seq<Seq<char>>
    decreases ls.len(),
{
    if ls.len() == 0 {
        seq![]
    } else if clean_line(ls.last()).len() > 0 {
        block_lines(ls.drop_last()).push(clean_line(ls.last()))
    } else {
        block_lines(ls.drop_last())
    }
}

/// The item a block describes, from its title, kind label and property lines.
pub open spec fn item_of(full: Seq<char>, kind_label: Seq<char>, props: Seq<char>) -> PendingItemView {
    let short = spec_short_name(full, kind_label);
    let shape = spec_kind_shape(kind_label);
    let profiles = spec_infer_star_profiles(shape.0, props);
    PendingItemView {
        short: short,
        full: full,
        kind: shape.0,
        kind_label: kind_label,
        width: shape.1,
        height: shape.2,
        properties: props,
        tags: spec_infer_tags(props),
        star_profiles: profiles,
        actions: actions::spec_infer_actions_for_equipment(short, full, props, profiles.len() > 0),
    }
}

/// A block: nothing when it has no lines; an error when it has a title only or the title
/// does not read; else its item.
pub open spec fn spec_parse_block(ls: Seq<Seq<char>>) -> Option<Result<PendingItemView, Seq<char>>> {
    if ls.len() == 0 {
        None
    } else if ls.len() < 2 {
        Some(Err("装备块缺少属性正文："@ + ls[0]))
    } else {
        match spec_parse_block_head(ls) {
            Ok((full, kind, start)) => Some(
                Ok(
                    item_of(
                        full,
                        kind,
                        spec_normalize_properties(
                            ls.subrange(if start <= ls.len() { start } else { ls.len() as int }, ls.len() as int),
                        ),
                    ),
                ),
            ),
            Err(e) => Some(Err(e)),
        }
    }
}

/// The items of the blocks, in order; the first block's error when one fails.
pub open spec fn spec_parse_blocks(blocks: Seq<Seq<char>>) -> Result<Seq<PendingItemView>, Seq<char>>
    decreases blocks.len(),
{
    if blocks.len() == 0 {
        Ok(seq![])
    } else {
        match spec_parse_blocks(blocks.drop_last()) {
            Err(e) => Err(e),
            Ok(items) => match spec_parse_block(block_lines(text::lines(blocks.last()))) {
                None => Ok(items),
                Some(Err(e)) => Err(e),
                Some(Ok(it)) => Ok(items.push(it)),
            },
        }
    }
}

/// The pending document read as items: blocks separated by `"---"`.
pub open spec fn spec_parse_pending(t: Seq<char>) -> Result<Seq<PendingItemView>, Seq<char>> {
    spec_parse_blocks(text::split_on(t, "---"@))
}

pub open spec fn item_views(v: Seq<PendingItem>) -> Seq<PendingItemView> {
    v.map_values(|i: PendingItem| i@)
}

fn block_lines_exec(block: &[char]) -> (r: Vec<Vec<char>>)
    ensures
        r@.map_values(|v: Vec<char>| v@) == block_lines(text::lines(block@)),
{
    let ls = text::lines_exec(block);
    let ghost lv = text::lines(block@);
    let mut out: Vec<Vec<char>> = Vec::new();
    let mut k: usize = 0;
    assert(lv.subrange(0, 0) =~= Seq::<Seq<char>>::empty());
    while k < ls.len()
        invariant
            lv == text::lines(block@),
            ls@.len() == lv.len(),
            forall|j: int| 0 <= j < ls@.len() ==> #[trigger] ls@[j]@ == lv[j],
            k <= ls@.len(),
            out@.map_values(|v: Vec<char>| v@) == block_lines(lv.subrange(0, k as int)),
        decreases ls@.len() - k,
    {
        let ghost pre = lv.subrange(0, k + 1);
        assert(pre.drop_last() =~= lv.subrange(0, k as int));
        let t = text::trim_exec(&ls[k]);
        let c = text::strip_start_all_exec(&t, '\u{feff}');
        if c.len() > 0 {
            let ghost before = out@;
            out.push(c);
            assert(out@.map_values(|v: Vec<char>| v@) =~= before.map_values(|v: Vec<char>| v@).push(c@));
        }
        k += 1;
    }
    assert(lv.subrange(0, ls@.len() as int) =~= lv);
    out
}

fn item_from(full: String, kind_label: String, properties: String) -> (r: PendingItem)
    ensures
        r@ == item_of(full@, kind_label@, properties@),
{
    let short = short_name(full.as_str(), kind_label.as_str());
    let (kind, width, height) = kind_shape(kind_label.as_str());
    let tags = infer_tags(properties.as_str());
    let star_profiles = infer_star_profiles(kind.as_str(), properties.as_str());
    let tiered = star_profiles.len() > 0;
    let acts = actions::infer_actions_for_equipment(
        short.as_str(),
        full.as_str(),
        properties.as_str(),
        tiered,
    );
    PendingItem {
        short,
        full,
        kind,
        kind_label,
        width,
        height,
        properties,
        tags,
        star_profiles,
        actions: acts,
    }
}

fn parse_block(ls: &Vec<Vec<char>>) -> (r: Option<Result<PendingItem, String>>)
    ensures
        match r {
            None => spec_parse_block(ls@.map_values(|v: Vec<char>| v@)) is None,
            Some(Ok(it)) => spec_parse_block(ls@.map_values(|v: Vec<char>| v@)) == Some(
                Ok::<PendingItemView, Seq<char>>(it@),
            ),
            Some(Err(e)) => spec_parse_block(ls@.map_values(|v: Vec<char>| v@)) == Some(
                Err::<PendingItemView, Seq<char>>(e@),
            ),
        },
{
    let ghost lv = ls@.map_values(|v: Vec<char>| v@);
    if ls.len() == 0 {
        return None;
    }
    if ls.len() < 2 {
        let mut e = text::string_from("装备块缺少属性正文：");
        text::push_chars(&mut e, &ls[0]);
        return Some(Err(e));
    }
    match parse_block_head(ls) {
        Ok((full, kind_label, start)) => {
            let from = if start <= ls.len() {
                start
            } else {
                ls.len()
            };
            let props = normalize_properties(ls, from);
            Some(Ok(item_from(full, kind_label, props)))
        },
        Err(e) => Some(Err(e)),
    }
}

/// Reads the pending document: blocks separated by `"---"`, each a title (name and kind
/// label on one line, or on two), optional combat-power lines and property lines. Blocks
/// without lines are skipped; the first block that does not read gives the error.
pub fn parse_pending(t: &str) -> (r: Result<Vec<PendingItem>, String>)
    ensures
        match r {
            Ok(items) => spec_parse_pending(t@) == Ok::<Seq<PendingItemView>, Seq<char>>(
                item_views(items@),
            ),
            Err(e) => spec_parse_pending(t@) == Err::<Seq<PendingItemView>, Seq<char>>(e@),
        },
{
    let tc = text::chars_of(t);
    let sep = text::chars_of("---");
    proof {
        reveal_strlit("---");
    }
    let blocks = text::split_on_exec(&tc, &sep);
    let ghost bv = text::split_on(t@, "---"@);
    let mut items: Vec<PendingItem> = Vec::new();
    let mut k: usize = 0;
    assert(bv.subrange(0, 0) =~= Seq::<Seq<char>>::empty());
    assert(item_views(items@) =~= Seq::<PendingItemView>::empty());
    while k < blocks.len()
        invariant
            bv == text::split_on(t@, "---"@),
            blocks@.len() == bv.len(),
            forall|j: int| 0 <= j < blocks@.len() ==> #[trigger] blocks@[j]@ == bv[j],
            k <= blocks@.len(),
            spec_parse_blocks(bv.subrange(0, k as int)) == Ok::<Seq<PendingItemView>, Seq<char>>(
                item_views(items@),
            ),
        decreases blocks@.len() - k,
    {
        let ghost pre = bv.subrange(0, k + 1);
        assert(pre.drop_last() =~= bv.subrange(0, k as int));
        let ls = block_lines_exec(&blocks[k]);
        match parse_block(&ls) {
            None => {},
            Some(Ok(it)) => {
                let ghost before = items@;
                items.push(it);
                assert(item_views(items@) =~= item_views(before).push(it@));
            },
            Some(Err(e)) => {
                proof {
                    lemma_parse_blocks_err(bv, k as int + 1, e@);
                }
                return Err(e);
            },
        }
        k += 1;
    }
    assert(bv.subrange(0, blocks@.len() as int) =~= bv);
    Ok(items)
}

proof fn lemma_parse_blocks_err(bv: Seq<Seq<char>>, k: int, e: Seq<char>)
    requires
        0 <= k <= bv.len(),
        spec_parse_blocks(bv.subrange(0, k)) == Err::<Seq<PendingItemView>, Seq<char>>(e),
    ensures
        spec_parse_blocks(bv) == Err::<Seq<PendingItemView>, Seq<char>>(e),
    decreases bv.len() - k,
{
    if k < bv.len() {
        assert(bv.subrange(0, k + 1).drop_last() =~= bv.subrange(0, k));
        lemma_parse_blocks_err(bv, k + 1, e);
    } else {
        assert(bv.subrange(0, k) =~= bv);
    }
}

} // verus!

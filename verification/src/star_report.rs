//! Which items lack star tiers: the stored tiers gathered per item, and the report that
//! lists the items without all of tiers 1 to 4.
use vstd::prelude::*;
use crate::text;
use crate::num;

verus! {

/// One stored row: an item and, when it has one, one of its star tiers.
#[derive(Clone, Debug)]
pub struct StarRow {
    pub short: String,
    pub full: String,
    pub kind_label: String,
    pub star: Option<i64>,
}

pub struct StarRowView {
    pub short: Seq<char>,
    pub full: Seq<char>,
    pub kind_label: Seq<char>,
    pub star: Option<i64>,
}

impl View for StarRow {
    type V = StarRowView;

    open spec fn view(&self) -> StarRowView {
        StarRowView {
            short: self.short@,
            full: self.full@,
            kind_label: self.kind_label@,
            star: self.star,
        }
    }
}

/// An item and the star tiers it has, in increasing order without repeats.
#[derive(Clone, Debug)]
pub struct EquipmentStars {
    pub short: String,
    pub full: String,
    pub kind_label: String,
    pub stars: Vec<i64>,
}

pub struct EquipmentStarsView {
    pub short: Seq<char>,
    pub full: Seq<char>,
    pub kind_label: Seq<char>,
    pub stars: Seq<i64>,
}

impl View for EquipmentStars {
    type V = EquipmentStarsView;

    open spec fn view(&self) -> EquipmentStarsView {
        EquipmentStarsView {
            short: self.short@,
            full: self.full@,
            kind_label: self.kind_label@,
            stars: self.stars@,
        }
    }
}

pub open spec fn star_rows_view(v: Seq<StarRow>) -> Seq<StarRowView> {
    v.map_values(|r: StarRow| r@)
}

pub open spec fn items_view(v: Seq<EquipmentStars>) -> Seq<EquipmentStarsView> {
    v.map_values(|e: EquipmentStars| e@)
}

/// Strictly increasing.
pub open spec fn increasing(s: Seq<i64>) -> bool {
    forall|i: int, j: int| 0 <= i < j < s.len() ==> s[i] < s[j]
}

/// The first position from `i` on holding a tier not below `x`.
pub open spec fn star_lower(s: Seq<i64>, x: i64, i: int) -> int
    decreases s.len() - i,
{
    if i < 0 || i >= s.len() {
        s.len() as int
    } else if s[i] >= x {
        i
    } else {
        star_lower(s, x, i + 1)
    }
}

pub proof fn lemma_star_lower(s: Seq<i64>, x: i64, i: int)
    requires
        0 <= i <= s.len(),
    ensures
        i <= star_lower(s, x, i) <= s.len(),
        forall|j: int| i <= j < star_lower(s, x, i) ==> s[j] < x,
        star_lower(s, x, i) < s.len() ==> s[star_lower(s, x, i)] >= x,
    decreases s.len() - i,
{
    if i < s.len() && s[i] < x {
        lemma_star_lower(s, x, i + 1);
    }
}

/// The tiers with `x` added (a set kept in increasing order).
pub open spec fn add_star(s: Seq<i64>, x: i64) -> Seq<i64> {
    let p = star_lower(s, x, 0);
    if 0 <= p < s.len() && s[p] == x {
        s
    } else {
        s.insert(p, x)
    }
}

/// Adding a tier keeps the tiers increasing and adds exactly that tier.
pub proof fn lemma_add_star(s: Seq<i64>, x: i64)
    requires
        increasing(s),
    ensures
        increasing(add_star(s, x)),
        forall|y: i64| add_star(s, x).contains(y) <==> (s.contains(y) || y == x),
{
    let p = star_lower(s, x, 0);
    lemma_star_lower(s, x, 0);
    if !(0 <= p < s.len() && s[p] == x) {
        let t = s.insert(p, x);
        s.insert_ensures(p, x);
        assert forall|i: int, j: int| 0 <= i < j < t.len() implies t[i] < t[j] by {
            if j < p {
            } else if j == p {
                assert(s[i] < x);
            } else if i < p {
                assert(t[j] == s[j - 1]);
                if i + 1 < j {
                    assert(s[i] < s[j - 1]);
                }
                assert(s[p] >= x);
                if p < j - 1 {
                    assert(s[p] < s[j - 1]);
                }
                assert(s[i] < x);
            } else if i == p {
                assert(t[j] == s[j - 1]);
                assert(s[p] >= x && s[p] != x);
                if p < j - 1 {
                    assert(s[p] < s[j - 1]);
                }
            } else {
                assert(t[j] == s[j - 1] && t[i] == s[i - 1]);
            }
        }
        assert forall|y: i64| t.contains(y) <==> (s.contains(y) || y == x) by {
            if t.contains(y) {
                let k = choose|k: int| 0 <= k < t.len() && t[k] == y;
                if k < p {
                    assert(s[k] == y);
                } else if k > p {
                    assert(t[(k - 1) + 1] == s[k - 1]);
                }
            }
            if s.contains(y) {
                let k = choose|k: int| 0 <= k < s.len() && s[k] == y;
                if k < p {
                    assert(t[k] == y);
                } else {
                    assert(t[k + 1] == y);
                }
            }
            if y == x {
                assert(t[p] == y);
            }
        }
    } else {
        assert forall|y: i64| s.contains(y) <==> (s.contains(y) || y == x) by {
            if y == x {
                assert(s[p] == y);
            }
        }
    }
}

pub open spec fn add_opt_star(s: Seq<i64>, x: Option<i64>) -> Seq<i64> {
    match x {
        Some(v) => add_star(s, v),
        None => s,
    }
}

/// The rows gathered per item: consecutive rows of one item make one entry, with the
/// tiers they give.
pub open spec fn spec_gather_stars(rows: Seq<StarRowView>) -> Seq<EquipmentStarsView>
    decreases rows.len(),
{
    if rows.len() == 0 {
        seq![]
    } else {
        let acc = spec_gather_stars(rows.drop_last());
        let x = rows.last();
        if acc.len() > 0 && acc.last().short == x.short {
            acc.update(
                acc.len() - 1,
                EquipmentStarsView { stars: add_opt_star(acc.last().stars, x.star), ..acc.last() },
            )
        } else {
            acc.push(
                EquipmentStarsView {
                    short: x.short,
                    full: x.full,
                    kind_label: x.kind_label,
                    stars: add_opt_star(seq![], x.star),
                },
            )
        }
    }
}

fn add_star_exec(s: &mut Vec<i64>, x: i64)
    requires
        increasing(old(s)@),
    ensures
        final(s)@ == add_star(old(s)@, x),
        increasing(final(s)@),
{
    proof {
        lemma_add_star(s@, x);
    }
    let mut p: usize = 0;
    while p < s.len() && s[p] < x
        invariant
            p <= s@.len(),
            star_lower(s@, x, 0) == star_lower(s@, x, p as int),
        decreases s@.len() - p,
    {
        p += 1;
    }
    if p < s.len() && s[p] == x {
        return;
    }
    s.insert(p, x);
}

fn copy_string(s: &String) -> (r: String)
    ensures
        r@ == s@,
{
    text::string_from(s.as_str())
}

/// Gathers the stored rows per item (see `spec_gather_stars`).
pub fn gather_stars(rows: &Vec<StarRow>) -> (r: Vec<EquipmentStars>)
    ensures
        items_view(r@) == spec_gather_stars(star_rows_view(rows@)),
        forall|i: int| 0 <= i < r@.len() ==> increasing((#[trigger] r@[i]).stars@),
{
    let ghost rv = star_rows_view(rows@);
    let mut out: Vec<EquipmentStars> = Vec::new();
    let mut i: usize = 0;
    assert(rv.subrange(0, 0) =~= Seq::<StarRowView>::empty());
    assert(items_view(out@) =~= Seq::<EquipmentStarsView>::empty());
    while i < rows.len()
        invariant
            rv == star_rows_view(rows@),
            i <= rows@.len(),
            items_view(out@) == spec_gather_stars(rv.subrange(0, i as int)),
            forall|j: int| 0 <= j < out@.len() ==> increasing((#[trigger] out@[j]).stars@),
        decreases rows@.len() - i,
    {
        assert(rv.subrange(0, i + 1).drop_last() =~= rv.subrange(0, i as int));
        assert(rv.subrange(0, i + 1).last() == rows@[i as int]@);
        let ghost acc = items_view(out@);
        let n = out.len();
        if n > 0 && text::string_eq_str(&out[n - 1].short, rows[i].short.as_str()) {
            let mut last = out.pop().unwrap();
            assert(last@ == acc.last());
            assert(increasing(last.stars@)) by {
                assert(out@.len() == n - 1);
            }
            match rows[i].star {
                Some(v) => add_star_exec(&mut last.stars, v),
                None => {},
            }
            out.push(last);
            assert(items_view(out@) =~= acc.update(
                acc.len() - 1,
                EquipmentStarsView { stars: add_opt_star(acc.last().stars, rows@[i as int].star), ..acc.last() },
            ));
        } else {
            let mut stars: Vec<i64> = Vec::new();
            match rows[i].star {
                Some(v) => add_star_exec(&mut stars, v),
                None => {},
            }
            out.push(
                EquipmentStars {
                    short: copy_string(&rows[i].short),
                    full: copy_string(&rows[i].full),
                    kind_label: copy_string(&rows[i].kind_label),
                    stars,
                },
            );
            assert(items_view(out@) =~= acc.push(
                EquipmentStarsView {
                    short: rows@[i as int].short@,
                    full: rows@[i as int].full@,
                    kind_label: rows@[i as int].kind_label@,
                    stars: add_opt_star(seq![], rows@[i as int].star),
                },
            ));
        }
        i += 1;
    }
    assert(rv.subrange(0, rows@.len() as int) =~= rv);
    out
}

/// Of tiers 1, 2, 3 and 4, those not in `stars`, in order.
pub open spec fn spec_missing_stars(stars: Seq<i64>) -> Seq<i64> {
    (if stars.contains(1) {
        seq![]
    } else {
        seq![1i64]
    }) + (if stars.contains(2) {
        seq![]
    } else {
        seq![2i64]
    }) + (if stars.contains(3) {
        seq![]
    } else {
        seq![3i64]
    }) + (if stars.contains(4) {
        seq![]
    } else {
        seq![4i64]
    })
}

/// The tiers reported missing are exactly the tiers from 1 to 4 that the item does not
/// have, each once, in increasing order.
pub proof fn lemma_missing_stars_exact(stars: Seq<i64>)
    ensures
        forall|x: i64| 1 <= x <= 4 ==> (#[trigger] spec_missing_stars(stars).contains(x) <==> !stars.contains(x)),
        forall|k: int|
            0 <= k < spec_missing_stars(stars).len() ==> 1 <= #[trigger] spec_missing_stars(stars)[k] <= 4,
        forall|i: int, j: int|
            0 <= i < j < spec_missing_stars(stars).len() ==> #[trigger] spec_missing_stars(stars)[i]
                < #[trigger] spec_missing_stars(stars)[j],
{
    let s1: Seq<i64> = if stars.contains(1) { seq![] } else { seq![1i64] };
    let s2: Seq<i64> = if stars.contains(2) { seq![] } else { seq![2i64] };
    let s3: Seq<i64> = if stars.contains(3) { seq![] } else { seq![3i64] };
    let s4: Seq<i64> = if stars.contains(4) { seq![] } else { seq![4i64] };
    let m = spec_missing_stars(stars);
    assert(m == s1 + s2 + s3 + s4);
    let a = s1.len() as int;
    let b = a + s2.len();
    let c = b + s3.len();
    // Where each tier stands, and what stands at each place.
    assert forall|k: int| 0 <= k < m.len() implies (k < a ==> m[k] == 1) && (a <= k < b ==> m[k] == 2) && (b
        <= k < c ==> m[k] == 3) && (c <= k ==> m[k] == 4) && !stars.contains(#[trigger] m[k]) by {
        if k < a {
            assert(m[k] == s1[k]);
        } else if k < b {
            assert(m[k] == s2[k - a]);
        } else if k < c {
            assert(m[k] == s3[k - b]);
        } else {
            assert(m[k] == s4[k - c]);
        }
    }
    assert forall|x: i64| 1 <= x <= 4 implies (#[trigger] m.contains(x) <==> !stars.contains(x)) by {
        if m.contains(x) {
            let k = choose|k: int| 0 <= k < m.len() && m[k] == x;
        }
        if !stars.contains(x) {
            if x == 1 {
                assert(m[0] == 1);
            } else if x == 2 {
                assert(m[a] == 2);
            } else if x == 3 {
                assert(m[b] == 3);
            } else {
                assert(m[c] == 4);
            }
        }
    }
}

fn has_star(stars: &Vec<i64>, x: i64) -> (r: bool)
    ensures
        r == stars@.contains(x),
{
    let mut i: usize = 0;
    while i < stars.len()
        invariant
            i <= stars@.len(),
            forall|j: int| 0 <= j < i ==> stars@[j] != x,
        decreases stars@.len() - i,
    {
        if stars[i] == x {
            assert(stars@[i as int] == x);
            return true;
        }
        i += 1;
    }
    false
}

/// The tiers among 1 to 4 that the item lacks.
pub fn missing_stars(item: &EquipmentStars) -> (r: Vec<i64>)
    ensures
        r@ == spec_missing_stars(item.stars@),
{
    let mut out: Vec<i64> = Vec::new();
    if !has_star(&item.stars, 1) {
        out.push(1);
    }
    if !has_star(&item.stars, 2) {
        out.push(2);
    }
    if !has_star(&item.stars, 3) {
        out.push(3);
    }
    if !has_star(&item.stars, 4) {
        out.push(4);
    }
    assert(out@ =~= spec_missing_stars(item.stars@));
    out
}

/// Whole numbers joined by `'/'`.
pub open spec fn ints_joined(v: Seq<i64>) -> Seq<char> {
    text::join(v.map_values(|x: i64| num::int_str(x as int)), "/"@)
}

fn join_ints(v: &Vec<i64>) -> (r: String)
    ensures
        r@ == ints_joined(v@),
{
    let mut parts: Vec<String> = Vec::new();
    let mut i: usize = 0;
    while i < v.len()
        invariant
            i <= v@.len(),
            text::strs(parts@) == v@.subrange(0, i as int).map_values(|x: i64| num::int_str(x as int)),
        decreases v@.len() - i,
    {
        let ghost before = parts@;
        parts.push(num::int_string(v[i]));
        assert(text::strs(parts@) =~= text::strs(before).push(num::int_str(v@[i as int] as int)));
        assert(v@.subrange(0, i + 1).map_values(|x: i64| num::int_str(x as int)) =~= v@.subrange(
            0,
            i as int,
        ).map_values(|x: i64| num::int_str(x as int)).push(num::int_str(v@[i as int] as int)));
        i += 1;
    }
    assert(v@.subrange(0, v@.len() as int) =~= v@);
    text::join_strings(&parts, "/")
}

/// The tiers an item has, joined by `'/'`; `"-"` for none.
pub open spec fn spec_stars_label(stars: Seq<i64>) -> Seq<char> {
    if stars.len() == 0 {
        "-"@
    } else {
        ints_joined(stars)
    }
}

pub fn stars_label(stars: &Vec<i64>) -> (r: String)
    ensures
        r@ == spec_stars_label(stars@),
{
    if stars.len() == 0 {
        return text::string_from("-");
    }
    join_ints(stars)
}

/// The tiers an item lacks, joined by `'/'`.
pub fn missing_label(item: &EquipmentStars) -> (r: String)
    ensures
        r@ == ints_joined(spec_missing_stars(item.stars@)),
{
    let m = missing_stars(item);
    join_ints(&m)
}

/// `"-"` for a blank text, else the text.
pub open spec fn dash_if_blank(v: Seq<char>) -> Seq<char> {
    if text::trim(v).len() == 0 {
        "-"@
    } else {
        v
    }
}

/// The items that lack a tier among 1 to 4, in order.
pub open spec fn incomplete(items: Seq<EquipmentStarsView>) -> Seq<EquipmentStarsView>
    decreases items.len(),
{
    if items.len() == 0 {
        seq![]
    } else if spec_missing_stars(items.last().stars).len() > 0 {
        incomplete(items.drop_last()).push(items.last())
    } else {
        incomplete(items.drop_last())
    }
}

/// The items with all of tiers 1 to 4, in order.
pub open spec fn complete(items: Seq<EquipmentStarsView>) -> Seq<EquipmentStarsView>
    decreases items.len(),
{
    if items.len() == 0 {
        seq![]
    } else if spec_missing_stars(items.last().stars).len() == 0 {
        complete(items.drop_last()).push(items.last())
    } else {
        complete(items.drop_last())
    }
}

/// A table row for an item that lacks tiers.
pub open spec fn missing_row(e: EquipmentStarsView) -> Seq<char> {
    "| "@ + e.full + " | "@ + e.short + " | "@ + dash_if_blank(e.kind_label) + " | "@
        + spec_stars_label(e.stars) + " | "@ + ints_joined(spec_missing_stars(e.stars)) + " |"@
}

/// A list line for an item with every tier.
pub open spec fn complete_row(e: EquipmentStarsView) -> Seq<char> {
    "- "@ + e.full + "（缩写："@ + e.short + "，类型："@ + dash_if_blank(e.kind_label) + "）"@
}

/// The report: the table of items lacking tiers (or a line saying there is none), then,
/// when asked, the list of complete items.
pub open spec fn spec_star_report(items: Seq<EquipmentStarsView>, show_complete: bool) -> Seq<
    Seq<char>,
> {
    let m = incomplete(items);
    let c = complete(items);
    (if m.len() == 0 {
        seq!["所有装备都已有 1/2/3/4 星档位。"@]
    } else {
        seq![
            "没有完整 1/2/3/4 星档位的装备："@ + num::nat_str(m.len()) + " 件"@,
            "| 装备 | 缩写 | 类型 | 已有星级 | 缺少星级 |"@,
            "|---|---|---|---|---|"@,
        ] + m.map_values(|e: EquipmentStarsView| missing_row(e))
    }) + (if show_complete {
        seq![seq![], "已完整写入 1/2/3/4 星档位的装备："@ + num::nat_str(c.len()) + " 件"@]
            + c.map_values(|e: EquipmentStarsView| complete_row(e))
    } else {
        seq![]
    })
}

fn dash_blank_exec(v: &String) -> (r: String)
    ensures
        r@ == dash_if_blank(v@),
{
    let c = text::chars_of(v.as_str());
    let t = text::trim_exec(&c);
    if t.len() == 0 {
        text::string_from("-")
    } else {
        copy_string(v)
    }
}

fn push_line(lines: &mut Vec<String>, s: String)
    ensures
        text::strs(final(lines)@) == text::strs(old(lines)@).push(s@),
{
    lines.push(s);
    assert(text::strs(lines@) =~= text::strs(old(lines)@).push(s@));
}

fn missing_row_exec(e: &EquipmentStars) -> (r: String)
    ensures
        r@ == missing_row(e@),
{
    let k = dash_blank_exec(&e.kind_label);
    let st = stars_label(&e.stars);
    let ms = missing_label(e);
    let mut s = text::string_from("| ");
    text::push_str(&mut s, e.full.as_str());
    text::push_str(&mut s, " | ");
    text::push_str(&mut s, e.short.as_str());
    text::push_str(&mut s, " | ");
    text::push_str(&mut s, k.as_str());
    text::push_str(&mut s, " | ");
    text::push_str(&mut s, st.as_str());
    text::push_str(&mut s, " | ");
    text::push_str(&mut s, ms.as_str());
    text::push_str(&mut s, " |");
    s
}

fn complete_row_exec(e: &EquipmentStars) -> (r: String)
    ensures
        r@ == complete_row(e@),
{
    let k = dash_blank_exec(&e.kind_label);
    let mut s = text::string_from("- ");
    text::push_str(&mut s, e.full.as_str());
    text::push_str(&mut s, "（缩写：");
    text::push_str(&mut s, e.short.as_str());
    text::push_str(&mut s, "，类型：");
    text::push_str(&mut s, k.as_str());
    text::push_str(&mut s, "）");
    s
}

/// The lines of the missing-tier report (see `spec_star_report`).
pub fn star_report(items: &Vec<EquipmentStars>, show_complete: bool) -> (r: Vec<String>)
    ensures
        text::strs(r@) == spec_star_report(items_view(items@), show_complete),
{
    let ghost iv = items_view(items@);
    let mut missing_rows: Vec<String> = Vec::new();
    let mut complete_rows: Vec<String> = Vec::new();
    let mut i: usize = 0;
    assert(iv.subrange(0, 0) =~= Seq::<EquipmentStarsView>::empty());
    assert(text::strs(missing_rows@) =~= Seq::<Seq<char>>::empty());
    while i < items.len()
        invariant
            iv == items_view(items@),
            i <= items@.len(),
            text::strs(missing_rows@) == incomplete(iv.subrange(0, i as int)).map_values(
                |e: EquipmentStarsView| missing_row(e),
            ),
            text::strs(complete_rows@) == complete(iv.subrange(0, i as int)).map_values(
                |e: EquipmentStarsView| complete_row(e),
            ),
        decreases items@.len() - i,
    {
        assert(iv.subrange(0, i + 1).drop_last() =~= iv.subrange(0, i as int));
        assert(iv.subrange(0, i + 1).last() == items@[i as int]@);
        let m = missing_stars(&items[i]);
        if m.len() > 0 {
            let ghost before = incomplete(iv.subrange(0, i as int));
            push_line(&mut missing_rows, missing_row_exec(&items[i]));
            assert(incomplete(iv.subrange(0, i + 1)).map_values(|e: EquipmentStarsView| missing_row(e))
                =~= before.map_values(|e: EquipmentStarsView| missing_row(e)).push(
                missing_row(items@[i as int]@),
            ));
        } else {
            let ghost before = complete(iv.subrange(0, i as int));
            push_line(&mut complete_rows, complete_row_exec(&items[i]));
            assert(complete(iv.subrange(0, i + 1)).map_values(|e: EquipmentStarsView| complete_row(e))
                =~= before.map_values(|e: EquipmentStarsView| complete_row(e)).push(
                complete_row(items@[i as int]@),
            ));
        }
        i += 1;
    }
    assert(iv.subrange(0, items@.len() as int) =~= iv);
    let mut lines: Vec<String> = Vec::new();
    if missing_rows.len() == 0 {
        push_line(&mut lines, text::string_from("所有装备都已有 1/2/3/4 星档位。"));
    } else {
        let mut head = text::string_from("没有完整 1/2/3/4 星档位的装备：");
        num::push_nat(&mut head, missing_rows.len() as u64);
        text::push_str(&mut head, " 件");
        push_line(&mut lines, head);
        push_line(&mut lines, text::string_from("| 装备 | 缩写 | 类型 | 已有星级 | 缺少星级 |"));
        push_line(&mut lines, text::string_from("|---|---|---|---|---|"));
        append_lines(&mut lines, &missing_rows);
    }
    if show_complete {
        push_line(&mut lines, String::new());
        let mut head = text::string_from("已完整写入 1/2/3/4 星档位的装备：");
        num::push_nat(&mut head, complete_rows.len() as u64);
        text::push_str(&mut head, " 件");
        push_line(&mut lines, head);
        append_lines(&mut lines, &complete_rows);
    }
    assert(text::strs(lines@) =~= spec_star_report(iv, show_complete));
    lines
}

fn append_lines(lines: &mut Vec<String>, more: &Vec<String>)
    ensures
        text::strs(final(lines)@) == text::strs(old(lines)@) + text::strs(more@),
{
    let mut i: usize = 0;
    while i < more.len()
        invariant
            i <= more@.len(),
            text::strs(lines@) == text::strs(old(lines)@) + text::strs(more@).subrange(0, i as int),
        decreases more@.len() - i,
    {
        push_line(lines, copy_string(&more[i]));
        assert(text::strs(old(lines)@) + text::strs(more@).subrange(0, i + 1) =~= text::strs(
            old(lines)@,
        ) + text::strs(more@).subrange(0, i as int) + seq![more@[i as int]@]);
        i += 1;
    }
    assert(text::strs(more@).subrange(0, more@.len() as int) =~= text::strs(more@));
}

} // verus!

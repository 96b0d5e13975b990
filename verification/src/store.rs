//! What the equipment store hands out and takes in, computed from its rows: the actions
//! of an item at a star tier grouped by trigger, their effect parameters, and the numbers
//! an item is written with.
use vstd::prelude::*;
use crate::text;
use crate::query::{self, ActionRow, ActionRowView, EffectEntry};
use crate::pending::{StarProfileRow, StarProfileRowView, profile_views};

verus! {

/// A stored effect parameter row: its tier (0 for every tier), key and value.
#[derive(Clone, Debug)]
pub struct EffectRow {
    pub star: i64,
    pub key: String,
    pub value: u64,
}

pub open spec fn effect_rows_view(v: Seq<EffectRow>) -> Seq<(int, Seq<char>, u64)> {
    v.map_values(|e: EffectRow| (e.star as int, e.key@, e.value))
}

/// The position of the entry for `key` among merged entries.
pub open spec fn entry_pos(acc: Seq<(int, Seq<char>, u64)>, key: Seq<char>, i: int) -> Option<int>
    decreases acc.len() - i,
{
    if i < 0 || i >= acc.len() {
        None
    } else if acc[i].1 == key {
        Some(i)
    } else {
        entry_pos(acc, key, i + 1)
    }
}

pub proof fn lemma_entry_pos(acc: Seq<(int, Seq<char>, u64)>, key: Seq<char>, i: int)
    requires
        0 <= i,
    ensures
        entry_pos(acc, key, i) matches Some(j) ==> i <= j < acc.len() && acc[j].1 == key,
    decreases acc.len() - i,
{
    if i < acc.len() && acc[i].1 != key {
        lemma_entry_pos(acc, key, i + 1);
    }
}

/// One row merged in: it takes the entry of its key when its tier is not lower, and adds
/// an entry when its key has none.
pub open spec fn merge_effect(acc: Seq<(int, Seq<char>, u64)>, x: (int, Seq<char>, u64)) -> Seq<
    (int, Seq<char>, u64),
> {
    match entry_pos(acc, x.1, 0) {
        Some(p) => if x.0 >= acc[p].0 {
            acc.update(p, x)
        } else {
            acc
        },
        None => acc.push(x),
    }
}

pub open spec fn merge_effect_rows(rows: Seq<(int, Seq<char>, u64)>) -> Seq<(int, Seq<char>, u64)>
    decreases rows.len(),
{
    if rows.len() == 0 {
        seq![]
    } else {
        merge_effect(merge_effect_rows(rows.drop_last()), rows.last())
    }
}

/// The effect parameters of an action at a tier: for each key, the value of its row of the
/// highest tier (the later of equals); keys in the order they first come.
pub open spec fn spec_merge_effects(rows: Seq<(int, Seq<char>, u64)>) -> Seq<(Seq<char>, u64)> {
    merge_effect_rows(rows).map_values(|e: (int, Seq<char>, u64)| (e.1, e.2))
}

proof fn lemma_entry_pos_none(acc: Seq<(int, Seq<char>, u64)>, key: Seq<char>, i: int)
    requires
        0 <= i,
    ensures
        entry_pos(acc, key, i) is None ==> forall|j: int| i <= j < acc.len() ==> #[trigger] acc[j].1 != key,
    decreases acc.len() - i,
{
    if i < acc.len() && acc[i].1 != key {
        lemma_entry_pos_none(acc, key, i + 1);
    }
}

/// The merged effect parameters hold each key once, and every key of the rows.
pub proof fn lemma_merge_effects_keys(rows: Seq<(int, Seq<char>, u64)>)
    ensures
        forall|i: int, j: int|
            0 <= i < j < spec_merge_effects(rows).len() ==> #[trigger] spec_merge_effects(rows)[i].0
                != #[trigger] spec_merge_effects(rows)[j].0,
        forall|k: int|
            0 <= k < rows.len() ==> exists|i: int|
                0 <= i < spec_merge_effects(rows).len() && #[trigger] spec_merge_effects(rows)[i].0
                    == (#[trigger] rows[k]).1,
    decreases rows.len(),
{
    let m = merge_effect_rows(rows);
    if rows.len() > 0 {
        let acc = merge_effect_rows(rows.drop_last());
        let x = rows.last();
        lemma_merge_effects_keys(rows.drop_last());
        lemma_entry_pos(acc, x.1, 0);
        lemma_entry_pos_none(acc, x.1, 0);
        let pa = spec_merge_effects(rows.drop_last());
        assert forall|i: int| 0 <= i < acc.len() implies acc[i].1 == pa[i].0 by {}
        assert forall|i: int| 0 <= i < m.len() implies m[i].1 == spec_merge_effects(rows)[i].0 by {}
        assert forall|i: int, j: int| 0 <= i < j < m.len() implies m[i].1 != m[j].1 by {
            assert(pa[i].0 == acc[i].1);
            match entry_pos(acc, x.1, 0) {
                Some(p) => {
                    if j < acc.len() {
                        assert(pa[j].0 == acc[j].1);
                    }
                },
                None => {
                    if j < acc.len() {
                        assert(pa[j].0 == acc[j].1);
                    }
                },
            }
        }
        assert forall|k: int| 0 <= k < rows.len() implies exists|i: int|
            0 <= i < spec_merge_effects(rows).len() && #[trigger] spec_merge_effects(rows)[i].0 == (
            #[trigger] rows[k]).1 by {
            if k < rows.len() - 1 {
                assert(rows.drop_last()[k] == rows[k]);
                let i = choose|i: int| 0 <= i < pa.len() && #[trigger] pa[i].0 == (#[trigger] rows.drop_last()[k]).1;
                assert(acc[i].1 == rows[k].1);
                assert(m[i].1 == rows[k].1);
                assert(spec_merge_effects(rows)[i].0 == rows[k].1);
            } else {
                assert(rows[k] == x);
                match entry_pos(acc, x.1, 0) {
                    Some(p) => {
                        assert(m[p].1 == x.1);
                        assert(spec_merge_effects(rows)[p].0 == x.1);
                    },
                    None => {
                        assert(m[acc.len() as int] == x);
                        assert(spec_merge_effects(rows)[acc.len() as int].0 == x.1);
                    },
                }
            }
        }
    }
}

/// Merges the stored effect rows of one action (see `spec_merge_effects`).
pub fn merge_effects(rows: &Vec<EffectRow>) -> (r: Vec<EffectEntry>)
    ensures
        query::entries_view(r@) == spec_merge_effects(effect_rows_view(rows@)),
{
    let ghost rv = effect_rows_view(rows@);
    let mut acc: Vec<EffectRow> = Vec::new();
    let mut i: usize = 0;
    assert(rv.subrange(0, 0) =~= Seq::<(int, Seq<char>, u64)>::empty());
    assert(effect_rows_view(acc@) =~= Seq::<(int, Seq<char>, u64)>::empty());
    while i < rows.len()
        invariant
            rv == effect_rows_view(rows@),
            i <= rows@.len(),
            effect_rows_view(acc@) == merge_effect_rows(rv.subrange(0, i as int)),
        decreases rows@.len() - i,
    {
        assert(rv.subrange(0, i + 1).drop_last() =~= rv.subrange(0, i as int));
        assert(rv.subrange(0, i + 1).last() == rv[i as int]);
        let ghost av = effect_rows_view(acc@);
        let x = EffectRow {
            star: rows[i].star,
            key: text::string_from(rows[i].key.as_str()),
            value: rows[i].value,
        };
        let mut p: usize = 0;
        while p < acc.len() && !text::string_eq_str(&acc[p].key, x.key.as_str())
            invariant
                av == effect_rows_view(acc@),
                p <= acc@.len(),
                entry_pos(av, x.key@, 0) == entry_pos(av, x.key@, p as int),
            decreases acc@.len() - p,
        {
            p += 1;
        }
        if p < acc.len() {
            assert(entry_pos(av, x.key@, 0) == Some(p as int));
            if x.star >= acc[p].star {
                acc.set(p, x);
                assert(effect_rows_view(acc@) =~= av.update(p as int, rv[i as int]));
            }
        } else {
            acc.push(x);
            assert(effect_rows_view(acc@) =~= av.push(rv[i as int]));
        }
        i += 1;
    }
    assert(rv.subrange(0, rows@.len() as int) =~= rv);
    let mut out: Vec<EffectEntry> = Vec::new();
    let mut j: usize = 0;
    let ghost mv = effect_rows_view(acc@);
    while j < acc.len()
        invariant
            mv == effect_rows_view(acc@),
            j <= acc@.len(),
            query::entries_view(out@) == mv.subrange(0, j as int).map_values(
                |e: (int, Seq<char>, u64)| (e.1, e.2),
            ),
        decreases acc@.len() - j,
    {
        let ghost before = out@;
        out.push(EffectEntry { key: text::string_from(acc[j].key.as_str()), value: acc[j].value });
        assert(query::entries_view(out@) =~= query::entries_view(before).push(
            (acc@[j as int].key@, acc@[j as int].value),
        ));
        assert(mv.subrange(0, j + 1).map_values(|e: (int, Seq<char>, u64)| (e.1, e.2)) =~= mv.subrange(
            0,
            j as int,
        ).map_values(|e: (int, Seq<char>, u64)| (e.1, e.2)).push((mv[j as int].1, mv[j as int].2)));
        j += 1;
    }
    assert(mv.subrange(0, acc@.len() as int) =~= mv);
    out
}

/// Rows in key order split into runs of one trigger: each run with its trigger.
pub open spec fn by_trigger(rows: Seq<ActionRowView>) -> Seq<(Seq<char>, Seq<ActionRowView>)>
    decreases rows.len(),
{
    if rows.len() == 0 {
        seq![]
    } else {
        let acc = by_trigger(rows.drop_last());
        let x = rows.last();
        if acc.len() > 0 && acc.last().0 == x.action.trigger {
            acc.update(acc.len() - 1, (acc.last().0, acc.last().1.push(x)))
        } else {
            acc.push((x.action.trigger, seq![x]))
        }
    }
}

pub open spec fn trigger_groups_view(v: Seq<(String, Vec<ActionRow>)>) -> Seq<
    (Seq<char>, Seq<ActionRowView>),
> {
    v.map_values(|g: (String, Vec<ActionRow>)| (g.0@, query::rows_view(g.1@)))
}

/// The actions of an item at tier `star`, from its stored rows of tiers 0 and `star`: one
/// row per key (the highest tier, the later of equals), in key order, grouped by trigger.
pub fn actions_by_trigger(rows: &Vec<ActionRow>, star: i64) -> (r: Vec<(String, Vec<ActionRow>)>)
    ensures
        trigger_groups_view(r@) == by_trigger(query::spec_actions_for_star(query::rows_view(rows@), star as int)),
{
    let merged = query::actions_for_star(rows, star);
    let ghost mv = query::rows_view(merged@);
    let mut out: Vec<(String, Vec<ActionRow>)> = Vec::new();
    let mut i: usize = 0;
    assert(mv.subrange(0, 0) =~= Seq::<ActionRowView>::empty());
    assert(trigger_groups_view(out@) =~= Seq::<(Seq<char>, Seq<ActionRowView>)>::empty());
    while i < merged.len()
        invariant
            mv == query::rows_view(merged@),
            i <= merged@.len(),
            trigger_groups_view(out@) == by_trigger(mv.subrange(0, i as int)),
        decreases merged@.len() - i,
    {
        assert(mv.subrange(0, i + 1).drop_last() =~= mv.subrange(0, i as int));
        assert(mv.subrange(0, i + 1).last() == merged@[i as int]@);
        let ghost acc = trigger_groups_view(out@);
        let x = merged[i].duplicate();
        let n = out.len();
        if n > 0 && text::string_eq_str(&out[n - 1].0, x.action.trigger.as_str()) {
            let (t, mut g) = out.pop().unwrap();
            let ghost gv = query::rows_view(g@);
            g.push(x);
            assert(query::rows_view(g@) =~= gv.push(merged@[i as int]@));
            out.push((t, g));
            assert(trigger_groups_view(out@) =~= acc.update(
                acc.len() - 1,
                (acc.last().0, acc.last().1.push(merged@[i as int]@)),
            ));
        } else {
            let t = text::string_from(x.action.trigger.as_str());
            let mut g: Vec<ActionRow> = Vec::new();
            g.push(x);
            assert(query::rows_view(g@) =~= seq![merged@[i as int]@]);
            out.push((t, g));
            assert(trigger_groups_view(out@) =~= acc.push(
                (merged@[i as int]@.action.trigger, seq![merged@[i as int]@]),
            ));
        }
        i += 1;
    }
    assert(mv.subrange(0, merged@.len() as int) =~= mv);
    out
}

/// The first profile of tier 4.
pub open spec fn tier4(profiles: Seq<StarProfileRowView>) -> Option<StarProfileRowView>
    decreases profiles.len(),
{
    if profiles.len() == 0 {
        None
    } else if profiles[0].star == 4 {
        Some(profiles[0])
    } else {
        tier4(profiles.drop_first())
    }
}

/// The attack and interval an item is stored with: those of its first tier-4 profile,
/// else 0.
pub open spec fn spec_default_numbers(profiles: Seq<StarProfileRowView>) -> (u64, u64) {
    match tier4(profiles) {
        Some(p) => (p.attack, p.interval),
        None => (0, 0),
    }
}

pub fn default_numbers(profiles: &Vec<StarProfileRow>) -> (r: (u64, u64))
    ensures
        r == spec_default_numbers(profile_views(profiles@)),
{
    let ghost pv = profile_views(profiles@);
    let mut i: usize = 0;
    assert(pv.subrange(0, pv.len() as int) =~= pv);
    while i < profiles.len()
        invariant
            pv == profile_views(profiles@),
            i <= profiles@.len(),
            tier4(pv) == tier4(pv.subrange(i as int, pv.len() as int)),
        decreases profiles@.len() - i,
    {
        assert(pv.subrange(i as int, pv.len() as int).drop_first() =~= pv.subrange(
            i + 1,
            pv.len() as int,
        ));
        assert(pv.subrange(i as int, pv.len() as int)[0] == profiles@[i as int]@);
        if profiles[i].star == 4 {
            return (profiles[i].attack, profiles[i].interval);
        }
        i += 1;
    }
    (0, 0)
}

} // verus!

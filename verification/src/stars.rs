//! Star tiers written in equipment texts.
//!
//! A property text writes the value of each star tier as a slash group, `"10/20/30/40"`.
//! These functions find such groups and pick the value of one tier.
use vstd::prelude::*;
use crate::text;
use crate::num;

verus! {

/// `'0'..='9'`, `'.'` or `'/'`: the characters of a slash group.
pub open spec fn is_group_char(c: char) -> bool {
    num::is_num_char(c) || c == '/'
}

pub open spec fn group_keep() -> spec_fn(char) -> bool {
    |c: char| is_group_char(c)
}

/// The pieces of `s` between occurrences of the character `sep` (`str::split`).
pub open spec fn split_char(s: Seq<char>, sep: char) -> Seq<Seq<char>>
    decreases s.len(),
{
    match text::find(s, seq![sep]) {
        Some(i) => if 0 <= i < s.len() {
            seq![s.subrange(0, i)] + split_char(s.subrange(i + 1, s.len() as int), sep)
        } else {
            seq![s]
        },
        None => seq![s],
    }
}

/// Every piece reads as a number; their values.
pub open spec fn parse_all(parts: Seq<Seq<char>>) -> Option<Seq<u64>>
    decreases parts.len(),
{
    if parts.len() == 0 {
        Some(seq![])
    } else {
        match (parse_all(parts.drop_last()), num::num_value(parts.last())) {
            (Some(vs), Some(v)) => Some(vs.push(v)),
            _ => None,
        }
    }
}

/// A token holding a `'/'` whose slash-separated pieces all read as numbers: the values.
pub open spec fn spec_parse_slash_group(tok: Seq<char>) -> Option<Seq<u64>> {
    if !text::contains(tok, seq!['/']) {
        None
    } else {
        match parse_all(split_char(tok, '/')) {
            Some(vs) => if vs.len() > 0 {
                Some(vs)
            } else {
                None
            },
            None => None,
        }
    }
}

/// The value a group gives star tier `star` (tier 0 reads as tier 1; a tier past the
/// group's end reads its last value).
pub open spec fn pick(vals: Seq<u64>, star: nat) -> u64 {
    let k = if star == 0 {
        0
    } else {
        star - 1
    };
    if k < vals.len() {
        vals[k as int]
    } else if vals.len() > 0 {
        vals.last()
    } else {
        0
    }
}

/// A group of four values that are not all equal.
pub open spec fn varies_by_star(g: Seq<u64>) -> bool {
    g.len() == 4 && (g[0] != g[1] || g[1] != g[2] || g[2] != g[3])
}

/// Some token reads as a four-value slash group whose values are not all equal.
pub open spec fn any_group_varies(toks: Seq<Seq<char>>) -> bool
    decreases toks.len(),
{
    toks.len() > 0 && (any_group_varies(toks.drop_last()) || (spec_parse_slash_group(toks.last()) matches Some(g) && varies_by_star(g)))
}

/// The text writes a four-tier slash group (a maximal run of digits, dots and slashes)
/// whose values are not all equal.
pub open spec fn spec_has_star_values(s: Seq<char>) -> bool {
    any_group_varies(text::runs(s, group_keep(), seq![]))
}

/// The number of leading characters of `s` that belong to a slash group.
pub open spec fn group_prefix_len(s: Seq<char>) -> nat
    decreases s.len(),
{
    if s.len() > 0 && is_group_char(s[0]) {
        1 + group_prefix_len(s.drop_first())
    } else {
        0
    }
}

/// A token rewritten for one star tier: a slash group becomes the tier's value, printed;
/// any other token stays.
pub open spec fn expand_token(tok: Seq<char>, star: nat) -> Seq<char> {
    match spec_parse_slash_group(tok) {
        Some(vals) => num::fmt3(pick(vals, star) as nat),
        None => tok,
    }
}

/// The text as star tier `star` reads it: each token that starts with a digit or a dot
/// and runs over digits, dots and slashes is rewritten by `expand_token`.
pub open spec fn spec_properties_for_star(s: Seq<char>, star: nat) -> Seq<char>
    decreases s.len(),
{
    if s.len() == 0 {
        seq![]
    } else if num::is_num_char(s[0]) {
        let n = group_prefix_len(s);
        if 0 < n <= s.len() {
            expand_token(s.subrange(0, n as int), star) + spec_properties_for_star(
                s.subrange(n as int, s.len() as int),
                star,
            )
        } else {
            seq![]
        }
    } else {
        seq![s[0]] + spec_properties_for_star(s.drop_first(), star)
    }
}

pub proof fn lemma_group_prefix_len(s: Seq<char>)
    ensures
        group_prefix_len(s) <= s.len(),
        forall|j: int| 0 <= j < group_prefix_len(s) ==> is_group_char(#[trigger] s[j]),
        group_prefix_len(s) < s.len() ==> !is_group_char(s[group_prefix_len(s) as int]),
        s.len() > 0 && is_group_char(s[0]) ==> group_prefix_len(s) > 0,
    decreases s.len(),
{
    if s.len() > 0 && is_group_char(s[0]) {
        lemma_group_prefix_len(s.drop_first());
        assert forall|j: int| 0 <= j < group_prefix_len(s) implies is_group_char(#[trigger] s[j]) by {
            if j > 0 {
                assert(s[j] == s.drop_first()[j - 1]);
            }
        }
    }
}

pub proof fn lemma_group_prefix_len_at(s: Seq<char>, i: int, e: int)
    requires
        0 <= i <= e <= s.len(),
        forall|j: int| i <= j < e ==> is_group_char(#[trigger] s[j]),
        e == s.len() || !is_group_char(s[e]),
    ensures
        group_prefix_len(s.subrange(i, s.len() as int)) == e - i,
    decreases e - i,
{
    if i < e {
        lemma_group_prefix_len_at(s, i + 1, e);
        assert(s.subrange(i, s.len() as int).drop_first() =~= s.subrange(i + 1, s.len() as int));
    } else {
        if e < s.len() {
            assert(s.subrange(i, s.len() as int)[0] == s[e]);
        }
    }
}

pub fn group_char(c: char) -> (r: bool)
    ensures
        r == is_group_char(c),
{
    text::digit_char(c) || c == '.' || c == '/'
}

/// Splits a token at each `'/'`.
pub fn split_slash(s: &[char]) -> (r: Vec<Vec<char>>)
    ensures
        r@.len() == split_char(s@, '/').len(),
        forall|k: int| 0 <= k < r@.len() ==> #[trigger] r@[k]@ == split_char(s@, '/')[k],
{
    let mut out: Vec<Vec<char>> = Vec::new();
    let mut rest: Vec<char> = text::slice_vec(s, 0, s.len());
    let ghost mut done: Seq<Seq<char>> = seq![];
    let slash = vec!['/'];
    assert(slash@ =~= seq!['/']);
    assert(rest@ =~= s@);
    loop
        invariant
            slash@ == seq!['/'],
            out@.len() == done.len(),
            forall|k: int| 0 <= k < out@.len() ==> #[trigger] out@[k]@ == done[k],
            split_char(s@, '/') == done + split_char(rest@, '/'),
        decreases rest@.len(),
    {
        match text::find_exec(&rest, &slash) {
            Some(i) => {
                proof {
                    text::lemma_find_bounds(rest@, slash@);
                }
                assert(i + 1 <= rest@.len() && rest@.len() == rest.len());
                let head = text::slice_vec(&rest, 0, i);
                let tail = text::slice_vec(&rest, i + 1, rest.len());
                proof {
                    assert(done + (seq![head@] + split_char(tail@, '/')) =~= done.push(head@)
                        + split_char(tail@, '/'));
                    done = done.push(head@);
                }
                out.push(head);
                rest = tail;
            },
            None => {
                proof {
                    done = done.push(rest@);
                }
                out.push(rest);
                assert(split_char(s@, '/') =~= done);
                return out;
            },
        }
    }
}

/// Reads a slash group.
pub fn parse_slash_group_chars(tok: &[char]) -> (r: Option<Vec<u64>>)
    ensures
        r matches Some(v) ==> spec_parse_slash_group(tok@) == Some(v@),
        r is None ==> spec_parse_slash_group(tok@) is None,
{
    let slash = vec!['/'];
    assert(slash@ =~= seq!['/']);
    if !text::contains_exec(tok, &slash) {
        return None;
    }
    let parts = split_slash(tok);
    let ghost ps = split_char(tok@, '/');
    let mut vals: Vec<u64> = Vec::new();
    let mut k: usize = 0;
    while k < parts.len()
        invariant
            ps == split_char(tok@, '/'),
            parts@.len() == ps.len(),
            forall|j: int| 0 <= j < parts@.len() ==> #[trigger] parts@[j]@ == ps[j],
            k <= parts@.len(),
            parse_all(ps.subrange(0, k as int)) == Some(vals@),
        decreases parts@.len() - k,
    {
        assert(ps.subrange(0, k + 1).drop_last() =~= ps.subrange(0, k as int));
        match num::parse_milli_exec(&parts[k]) {
            Some(v) => vals.push(v),
            None => {
                proof {
                    lemma_parse_all_prefix_none(ps, k as int + 1);
                }
                return None;
            },
        }
        k += 1;
    }
    assert(ps.subrange(0, parts@.len() as int) =~= ps);
    if vals.len() == 0 {
        None
    } else {
        Some(vals)
    }
}

/// A piece that fails to read makes the whole group fail.
pub proof fn lemma_parse_all_prefix_none(ps: Seq<Seq<char>>, k: int)
    requires
        0 <= k <= ps.len(),
        parse_all(ps.subrange(0, k)) is None,
    ensures
        parse_all(ps) is None,
    decreases ps.len() - k,
{
    if k < ps.len() {
        assert(ps.subrange(0, k + 1).drop_last() =~= ps.subrange(0, k));
        lemma_parse_all_prefix_none(ps, k + 1);
    } else {
        assert(ps.subrange(0, k) =~= ps);
    }
}

pub fn pick_exec(vals: &[u64], star: u64) -> (r: u64)
    ensures
        r == pick(vals@, star as nat),
{
    let k: u64 = if star == 0 {
        0
    } else {
        star - 1
    };
    if k < vals.len() as u64 {
        vals[k as usize]
    } else if vals.len() > 0 {
        vals[vals.len() - 1]
    } else {
        0
    }
}

/// Star tier `star` (from 1 to the group's length) reads the `star`-th value of a slash
/// group, printed: tier 4 of a four-value group is its last value.
pub proof fn lemma_tier_picks_its_value(tok: Seq<char>, vals: Seq<u64>, star: nat)
    requires
        spec_parse_slash_group(tok) == Some(vals),
        1 <= star <= vals.len(),
    ensures
        expand_token(tok, star) == num::fmt3(vals[star - 1] as nat),
{
}

/// Tier 0 reads as tier 1, and a tier past a group's end reads the group's last value.
pub proof fn lemma_tier_outside_the_group(tok: Seq<char>, vals: Seq<u64>, star: nat)
    requires
        spec_parse_slash_group(tok) == Some(vals),
    ensures
        vals.len() > 0,
        star == 0 ==> expand_token(tok, star) == num::fmt3(vals[0] as nat),
        star > vals.len() ==> expand_token(tok, star) == num::fmt3(vals[vals.len() - 1] as nat),
{
}

/// A text that is one slash group reads, at tier `star` (from 1 to the group's length),
/// as the `star`-th value of the group, printed.
pub proof fn lemma_group_text_for_tier(tok: Seq<char>, vals: Seq<u64>, star: nat)
    requires
        spec_parse_slash_group(tok) == Some(vals),
        1 <= star <= vals.len(),
        tok.len() > 0,
        num::is_num_char(tok[0]),
        forall|k: int| 0 <= k < tok.len() ==> is_group_char(#[trigger] tok[k]),
    ensures
        spec_properties_for_star(tok, star) == num::fmt3(vals[star - 1] as nat),
{
    lemma_group_prefix_len_at(tok, 0, tok.len() as int);
    assert(tok.subrange(0, tok.len() as int) =~= tok);
    assert(tok.subrange(tok.len() as int, tok.len() as int) =~= Seq::<char>::empty());
    assert(spec_properties_for_star(Seq::<char>::empty(), star) == Seq::<char>::empty());
    assert(num::fmt3(vals[star - 1] as nat) + Seq::<char>::empty() =~= num::fmt3(vals[star - 1] as nat));
}

/// A text without a `'/'` reads the same at every star tier.
pub proof fn lemma_no_slash_unchanged(s: Seq<char>, star: nat)
    requires
        !s.contains('/'),
    ensures
        spec_properties_for_star(s, star) == s,
    decreases s.len(),
{
    if s.len() > 0 {
        if num::is_num_char(s[0]) {
            let n = group_prefix_len(s);
            lemma_group_prefix_len(s);
            let tok = s.subrange(0, n as int);
            let rest = s.subrange(n as int, s.len() as int);
            assert(!tok.contains('/')) by {
                if tok.contains('/') {
                    let k = choose|k: int| 0 <= k < tok.len() && tok[k] == '/';
                    assert(s[k] == '/');
                }
            }
            text::lemma_find_absent(tok, '/', 0);
            assert(!rest.contains('/')) by {
                if rest.contains('/') {
                    let k = choose|k: int| 0 <= k < rest.len() && rest[k] == '/';
                    assert(s[n + k] == '/');
                }
            }
            lemma_no_slash_unchanged(rest, star);
            assert(tok + rest =~= s);
        } else {
            let rest = s.drop_first();
            assert(!rest.contains('/')) by {
                if rest.contains('/') {
                    let k = choose|k: int| 0 <= k < rest.len() && rest[k] == '/';
                    assert(s[k + 1] == '/');
                }
            }
            lemma_no_slash_unchanged(rest, star);
            assert(seq![s[0]] + rest =~= s);
        }
    }
}

/// A rewritten token reads the same at every tier: a printed value has no `'/'`, and a
/// token left as it was is one that does not read as a slash group.
proof fn lemma_expand_token_stable(tok: Seq<char>, star: nat, star2: nat)
    ensures
        expand_token(expand_token(tok, star), star2) == expand_token(tok, star),
{
    match spec_parse_slash_group(tok) {
        Some(vals) => {
            let out = num::fmt3(pick(vals, star) as nat);
            num::lemma_fmt3_num_chars(pick(vals, star) as nat);
            assert(!out.contains('/')) by {
                if out.contains('/') {
                    let k = choose|k: int| 0 <= k < out.len() && out[k] == '/';
                    assert(num::is_num_char(out[k]));
                }
            }
            text::lemma_find_absent(out, '/', 0);
        },
        None => {},
    }
}

/// A rewritten token is a non-empty run of slash-group characters that starts with a
/// digit or a point.
proof fn lemma_expand_token_chars(tok: Seq<char>, star: nat)
    requires
        tok.len() > 0,
        num::is_num_char(tok[0]),
        forall|k: int| 0 <= k < tok.len() ==> is_group_char(#[trigger] tok[k]),
    ensures
        expand_token(tok, star).len() > 0,
        num::is_num_char(expand_token(tok, star)[0]),
        forall|k: int|
            0 <= k < expand_token(tok, star).len() ==> is_group_char(#[trigger] expand_token(tok, star)[k]),
{
    match spec_parse_slash_group(tok) {
        Some(vals) => {
            num::lemma_fmt3_num_chars(pick(vals, star) as nat);
        },
        None => {},
    }
}

/// Rewriting a text for a tier a second time, for any tier, changes nothing: the values
/// written in place of the slash groups hold no `'/'`.
pub proof fn lemma_properties_for_star_again(s: Seq<char>, star: nat, star2: nat)
    ensures
        spec_properties_for_star(spec_properties_for_star(s, star), star2) == spec_properties_for_star(s, star),
    decreases s.len(),
{
    if s.len() > 0 {
        if num::is_num_char(s[0]) {
            let n = group_prefix_len(s);
            lemma_group_prefix_len(s);
            let tok = s.subrange(0, n as int);
            let rest = s.subrange(n as int, s.len() as int);
            let piece = expand_token(tok, star);
            let tail = spec_properties_for_star(rest, star);
            assert(spec_properties_for_star(s, star) == piece + tail);
            lemma_expand_token_chars(tok, star);
            lemma_expand_token_stable(tok, star, star2);
            lemma_properties_for_star_again(rest, star, star2);
            // What follows the piece starts with a character outside slash groups.
            if rest.len() > 0 {
                assert(rest[0] == s[n as int]);
                assert(!is_group_char(rest[0]));
                assert(tail == seq![rest[0]] + spec_properties_for_star(rest.drop_first(), star));
                assert(tail[0] == rest[0]);
            }
            let u = piece + tail;
            assert forall|j: int| 0 <= j < piece.len() implies is_group_char(#[trigger] u[j]) by {
                assert(u[j] == piece[j]);
            }
            if tail.len() > 0 {
                assert(u[piece.len() as int] == tail[0]);
            }
            lemma_group_prefix_len_at(u, 0, piece.len() as int);
            assert(u.subrange(0, u.len() as int) =~= u);
            assert(u.subrange(0, piece.len() as int) =~= piece);
            assert(u.subrange(piece.len() as int, u.len() as int) =~= tail);
            assert(u[0] == piece[0]);
        } else {
            let rest = s.drop_first();
            let tail = spec_properties_for_star(rest, star);
            lemma_properties_for_star_again(rest, star, star2);
            let u = seq![s[0]] + tail;
            assert(u[0] == s[0]);
            assert(u.drop_first() =~= tail);
        }
    }
}

/// The text as star tier `star` reads it: every slash group is replaced by the tier's value.
pub fn properties_for_star_chars(t: &[char], star: u64) -> (r: Vec<char>)
    ensures
        r@ == spec_properties_for_star(t@, star as nat),
{
    let mut out: Vec<char> = Vec::new();
    let mut idx: usize = 0;
    assert(t@.subrange(0, t@.len() as int) =~= t@);
    while idx < t.len()
        invariant
            idx <= t@.len(),
            spec_properties_for_star(t@, star as nat) == out@ + spec_properties_for_star(
                t@.subrange(idx as int, t@.len() as int),
                star as nat,
            ),
        decreases t@.len() - idx,
    {
        let ghost rest = t@.subrange(idx as int, t@.len() as int);
        let c = t[idx];
        assert(rest[0] == c);
        if text::digit_char(c) || c == '.' {
            let mut end = idx;
            while end < t.len() && group_char(t[end])
                invariant
                    idx <= end <= t@.len(),
                    forall|j: int| idx <= j < end ==> is_group_char(#[trigger] t@[j]),
                decreases t@.len() - end,
            {
                end += 1;
            }
            proof {
                lemma_group_prefix_len_at(t@, idx as int, end as int);
                assert(rest.subrange(0, (end - idx) as int) =~= t@.subrange(idx as int, end as int));
                assert(rest.subrange((end - idx) as int, rest.len() as int) =~= t@.subrange(
                    end as int,
                    t@.len() as int,
                ));
            }
            let token = text::slice_vec(t, idx, end);
            match parse_slash_group_chars(&token) {
                Some(values) => {
                    let v = pick_exec(&values, star);
                    let s = num::format3(v);
                    let sc = text::chars_of(s.as_str());
                    let ghost before = out@;
                    out.extend_from_slice(&sc);
                    assert(out@ =~= before + sc@);
                },
                None => {
                    let ghost before = out@;
                    out.extend_from_slice(&token);
                    assert(out@ =~= before + token@);
                },
            }
            assert(out@ + spec_properties_for_star(t@.subrange(end as int, t@.len() as int), star as nat)
                == spec_properties_for_star(t@, star as nat));
            idx = end;
        } else {
            assert(rest.drop_first() =~= t@.subrange(idx + 1, t@.len() as int));
            out.push(c);
            idx += 1;
        }
    }
    assert(t@.subrange(t@.len() as int, t@.len() as int) =~= Seq::<char>::empty());
    out
}

fn group_varies(tok: &[char]) -> (r: bool)
    ensures
        r == (spec_parse_slash_group(tok@) matches Some(g) && varies_by_star(g)),
{
    match parse_slash_group_chars(tok) {
        Some(g) => g.len() == 4 && (g[0] != g[1] || g[1] != g[2] || g[2] != g[3]),
        None => false,
    }
}

/// Whether the text writes values that differ by star tier.
pub fn has_star_values_chars(t: &[char]) -> (r: bool)
    ensures
        r == spec_has_star_values(t@),
{
    let ghost keep = group_keep();
    let mut found = false;
    let mut cur: Vec<char> = Vec::new();
    let ghost mut done: Seq<Seq<char>> = seq![];
    let mut i: usize = 0;
    assert(t@.subrange(0, t@.len() as int) =~= t@);
    while i < t.len()
        invariant
            keep == group_keep(),
            i <= t@.len(),
            found == any_group_varies(done),
            text::runs(t@, keep, seq![]) == done + text::runs(
                t@.subrange(i as int, t@.len() as int),
                keep,
                cur@,
            ),
        decreases t@.len() - i,
    {
        proof {
            text::lemma_runs_step(t@, keep, cur@, i as int);
        }
        let c = t[i];
        if group_char(c) {
            cur.push(c);
        } else if cur.len() > 0 {
            let v = group_varies(&cur);
            proof {
                assert(done + (seq![cur@] + text::runs(
                    t@.subrange(i + 1, t@.len() as int),
                    keep,
                    seq![],
                )) =~= done.push(cur@) + text::runs(
                    t@.subrange(i + 1, t@.len() as int),
                    keep,
                    seq![],
                ));
                assert(done.push(cur@).drop_last() =~= done);
                done = done.push(cur@);
            }
            found = found || v;
            cur = Vec::new();
            assert(cur@ =~= seq![]);
        } else {
            assert(cur@ =~= seq![]);
        }
        i += 1;
    }
    assert(t@.subrange(t@.len() as int, t@.len() as int) =~= Seq::<char>::empty());
    if cur.len() > 0 {
        let v = group_varies(&cur);
        proof {
            assert(done.push(cur@).drop_last() =~= done);
            done = done.push(cur@);
        }
        found = found || v;
    }
    assert(text::runs(t@, keep, seq![]) =~= done);
    found
}

/// The text as star tier `star` reads it: every slash group (`"10/20/30/40"`) is replaced
/// by the value of that tier, printed with up to three decimals.
pub fn properties_for_star(text: &str, star: usize) -> (r: String)
    ensures
        r@ == spec_properties_for_star(text@, star as nat),
{
    let t = text::chars_of(text);
    let out = properties_for_star_chars(&t, star as u64);
    text::string_of(&out)
}

/// Whether the text writes a four-tier slash group whose values are not all equal.
pub fn has_star_values(text: &str) -> (r: bool)
    ensures
        r == spec_has_star_values(text@),
{
    let t = text::chars_of(text);
    has_star_values_chars(&t)
}

/// The values of a slash group, in thousandths; `None` when the token holds no `'/'` or a
/// piece does not read as a number.
pub fn parse_slash_group(token: &str) -> (r: Option<Vec<u64>>)
    ensures
        r matches Some(v) ==> spec_parse_slash_group(token@) == Some(v@),
        r is None ==> spec_parse_slash_group(token@) is None,
{
    let t = text::chars_of(token);
    parse_slash_group_chars(&t)
}

} // verus!

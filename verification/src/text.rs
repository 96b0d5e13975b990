//! Character-sequence helpers shared by the parsers and text builders.
//!
//! Text is modelled as `Seq<char>`; executable code works on `Vec<char>` / `&[char]`
//! and on `String`, whose view is its sequence of characters.
use vstd::prelude::*;

verus! {

/// `String::push` from std, which vstd leaves unspecified: the text afterwards holds its
/// old characters followed by `ch`.
pub assume_specification[ String::push ](s: &mut String, ch: char)
    ensures
        final(s)@ == old(s)@.push(ch),
;

// ---------------------------------------------------------------------------
// Character classes
// ---------------------------------------------------------------------------

/// `'0'..='9'`.
pub open spec fn is_digit(c: char) -> bool {
    '0' <= c && c <= '9'
}

/// The Unicode `White_Space` characters (those for which `char::is_whitespace` holds).
pub open spec fn is_ws(c: char) -> bool {
    ||| ('\u{9}' <= c && c <= '\u{d}')
    ||| c == ' '
    ||| c == '\u{85}'
    ||| c == '\u{a0}'
    ||| c == '\u{1680}'
    ||| ('\u{2000}' <= c && c <= '\u{200a}')
    ||| c == '\u{2028}'
    ||| c == '\u{2029}'
    ||| c == '\u{202f}'
    ||| c == '\u{205f}'
    ||| c == '\u{3000}'
}

pub fn digit_char(c: char) -> (r: bool)
    ensures
        r == is_digit(c),
{
    '0' <= c && c <= '9'
}

pub fn ws_char(c: char) -> (r: bool)
    ensures
        r == is_ws(c),
{
    ('\u{9}' <= c && c <= '\u{d}') || c == ' ' || c == '\u{85}' || c == '\u{a0}' || c
        == '\u{1680}' || ('\u{2000}' <= c && c <= '\u{200a}') || c == '\u{2028}' || c
        == '\u{2029}' || c == '\u{202f}' || c == '\u{205f}' || c == '\u{3000}'
}

// ---------------------------------------------------------------------------
// Searching
// ---------------------------------------------------------------------------

/// `p` occurs in `t` at position `i`.
pub open spec fn occurs_at(t: Seq<char>, p: Seq<char>, i: int) -> bool {
    0 <= i && i + p.len() <= t.len() && t.subrange(i, i + p.len()) == p
}

/// The first position at or after `i` where `p` occurs in `t`.
pub open spec fn find_from(t: Seq<char>, p: Seq<char>, i: int) -> Option<int>
    decreases t.len() + 1 - i,
{
    if i < 0 || i + p.len() > t.len() {
        None
    } else if occurs_at(t, p, i) {
        Some(i)
    } else {
        find_from(t, p, i + 1)
    }
}

/// The first position where `p` occurs in `t` (as `str::find`, counted in characters).
pub open spec fn find(t: Seq<char>, p: Seq<char>) -> Option<int> {
    find_from(t, p, 0)
}

pub open spec fn contains(t: Seq<char>, p: Seq<char>) -> bool {
    find(t, p) is Some
}

pub open spec fn starts_with(t: Seq<char>, p: Seq<char>) -> bool {
    p.len() <= t.len() && t.subrange(0, p.len() as int) == p
}

pub open spec fn ends_with(t: Seq<char>, p: Seq<char>) -> bool {
    p.len() <= t.len() && t.subrange(t.len() - p.len(), t.len() as int) == p
}

/// What follows the first occurrence of `marker` in `t`.
pub open spec fn after(t: Seq<char>, marker: Seq<char>) -> Option<Seq<char>> {
    match find(t, marker) {
        Some(i) => Some(t.subrange(i + marker.len(), t.len() as int)),
        None => None,
    }
}

/// The prefix of `t` before the first occurrence of `stop` (all of `t` when absent).
pub open spec fn until(t: Seq<char>, stop: Seq<char>) -> Seq<char> {
    match find(t, stop) {
        Some(i) => t.subrange(0, i),
        None => t,
    }
}

/// What follows `marker`, cut at the next full-width semicolon.
pub open spec fn section_after(t: Seq<char>, marker: Seq<char>) -> Option<Seq<char>> {
    match after(t, marker) {
        Some(rest) => Some(until(rest, seq!['；'])),
        None => None,
    }
}

pub proof fn lemma_find_from_bounds(t: Seq<char>, p: Seq<char>, i: int)
    requires
        0 <= i,
    ensures
        find_from(t, p, i) matches Some(k) ==> i <= k && occurs_at(t, p, k) && (forall|j: int|
            i <= j < k ==> !occurs_at(t, p, j)),
        find_from(t, p, i) is None ==> (forall|j: int| i <= j ==> !occurs_at(t, p, j)),
    decreases t.len() + 1 - i,
{
    if i < 0 || i + p.len() > t.len() {
    } else if occurs_at(t, p, i) {
    } else {
        lemma_find_from_bounds(t, p, i + 1);
    }
}

pub proof fn lemma_find_bounds(t: Seq<char>, p: Seq<char>)
    ensures
        find(t, p) matches Some(k) ==> 0 <= k && k + p.len() <= t.len() && occurs_at(t, p, k),
{
    lemma_find_from_bounds(t, p, 0);
}

/// Whether `p` occurs in `t` at position `i`.
pub fn occurs_at_exec(t: &[char], p: &[char], i: usize) -> (r: bool)
    ensures
        r == occurs_at(t@, p@, i as int),
{
    if i > t.len() || p.len() > t.len() - i {
        return false;
    }
    assert(i + p@.len() <= t@.len());
    let mut k: usize = 0;
    while k < p.len()
        invariant
            i + p@.len() <= t@.len(),
            t@.len() == t.len(),
            p@.len() == p.len(),
            k <= p@.len(),
            forall|j: int| 0 <= j < k ==> t@[i + j] == p@[j],
        decreases p@.len() - k,
    {
        if t[i + k] != p[k] {
            assert(t@.subrange(i as int, i + p@.len())[k as int] != p@[k as int]);
            return false;
        }
        k += 1;
    }
    assert(t@.subrange(i as int, i + p@.len()) =~= p@);
    true
}

/// The first position where `p` occurs in `t`.
pub fn find_exec(t: &[char], p: &[char]) -> (r: Option<usize>)
    ensures
        r matches Some(k) ==> find(t@, p@) == Some(k as int),
        r is None ==> find(t@, p@) is None,
{
    let mut i: usize = 0;
    loop
        invariant
            i <= t@.len(),
            find(t@, p@) == find_from(t@, p@, i as int),
        decreases t@.len() - i,
    {
        if p.len() > t.len() - i {
            return None;
        }
        if occurs_at_exec(t, p, i) {
            return Some(i);
        }
        if p.len() == 0 {
            assert(t@.subrange(i as int, i as int) =~= p@);
        }
        i += 1;
    }
}

pub fn contains_exec(t: &[char], p: &[char]) -> (r: bool)
    ensures
        r == contains(t@, p@),
{
    find_exec(t, p).is_some()
}

pub fn starts_with_exec(t: &[char], p: &[char]) -> (r: bool)
    ensures
        r == starts_with(t@, p@),
{
    occurs_at_exec(t, p, 0)
}

pub fn ends_with_exec(t: &[char], p: &[char]) -> (r: bool)
    ensures
        r == ends_with(t@, p@),
{
    if p.len() > t.len() {
        false
    } else {
        occurs_at_exec(t, p, t.len() - p.len())
    }
}

/// A copy of `t[from..to]`.
pub fn slice_vec(t: &[char], from: usize, to: usize) -> (r: Vec<char>)
    requires
        from <= to <= t@.len(),
    ensures
        r@ == t@.subrange(from as int, to as int),
{
    let mut out: Vec<char> = Vec::new();
    let mut i = from;
    while i < to
        invariant
            from <= i <= to <= t@.len(),
            out@ == t@.subrange(from as int, i as int),
        decreases to - i,
    {
        out.push(t[i]);
        i += 1;
        assert(out@ =~= t@.subrange(from as int, i as int));
    }
    out
}

pub fn after_exec(t: &[char], marker: &[char]) -> (r: Option<Vec<char>>)
    ensures
        r matches Some(v) ==> after(t@, marker@) == Some(v@),
        r is None ==> after(t@, marker@) is None,
{
    match find_exec(t, marker) {
        Some(i) => {
            proof {
                lemma_find_bounds(t@, marker@);
            }
            assert(i + marker@.len() <= t@.len());
            assert(marker@.len() == marker.len() && t@.len() == t.len());
            Some(slice_vec(t, i + marker.len(), t.len()))
        },
        None => None,
    }
}

pub fn until_exec(t: &[char], stop: &[char]) -> (r: Vec<char>)
    ensures
        r@ == until(t@, stop@),
{
    match find_exec(t, stop) {
        Some(i) => {
            proof {
                lemma_find_bounds(t@, stop@);
            }
            slice_vec(t, 0, i)
        },
        None => slice_vec(t, 0, t.len()),
    }
}

pub fn section_after_exec(t: &[char], marker: &[char]) -> (r: Option<Vec<char>>)
    ensures
        r matches Some(v) ==> section_after(t@, marker@) == Some(v@),
        r is None ==> section_after(t@, marker@) is None,
{
    match after_exec(t, marker) {
        Some(rest) => {
            let semi = vec!['；'];
            assert(semi@ =~= seq!['；']);
            Some(until_exec(&rest, &semi))
        },
        None => None,
    }
}

// ---------------------------------------------------------------------------
// Conversions between `str` / `String` and characters
// ---------------------------------------------------------------------------

/// The characters of a string slice, in order.
pub fn chars_of(s: &str) -> (r: Vec<char>)
    ensures
        r@ == s@,
{
    let mut out: Vec<char> = Vec::new();
    for c in it: s.chars()
        invariant
            out@ == it.seq().take(it.index() as int),
    {
        out.push(c);
    }
    out
}

/// Appends characters to a string.
pub fn push_chars(s: &mut String, cs: &[char])
    ensures
        final(s)@ == old(s)@ + cs@,
{
    let mut i: usize = 0;
    while i < cs.len()
        invariant
            i <= cs@.len(),
            s@ == old(s)@ + cs@.subrange(0, i as int),
        decreases cs@.len() - i,
    {
        s.push(cs[i]);
        i += 1;
        assert(s@ =~= old(s)@ + cs@.subrange(0, i as int));
    }
    assert(cs@.subrange(0, cs@.len() as int) =~= cs@);
}

/// Appends a string slice to a string.
pub fn push_str(s: &mut String, t: &str)
    ensures
        final(s)@ == old(s)@ + t@,
{
    let cs = chars_of(t);
    push_chars(s, &cs);
}

/// A string holding the given characters.
pub fn string_of(cs: &[char]) -> (r: String)
    ensures
        r@ == cs@,
{
    let mut s = String::new();
    push_chars(&mut s, cs);
    assert(s@ =~= cs@);
    s
}

/// A string holding the characters of a string slice.
pub fn string_from(t: &str) -> (r: String)
    ensures
        r@ == t@,
{
    let mut s = String::new();
    push_str(&mut s, t);
    assert(s@ =~= t@);
    s
}

/// Whether a character sequence equals a string slice.
pub fn eq_str(a: &[char], b: &str) -> (r: bool)
    ensures
        r == (a@ == b@),
{
    let bc = chars_of(b);
    eq_chars(a, &bc)
}

/// Whether two character sequences are equal.
pub fn eq_chars(a: &[char], b: &[char]) -> (r: bool)
    ensures
        r == (a@ == b@),
{
    if a.len() != b.len() {
        return false;
    }
    let r = occurs_at_exec(a, b, 0);
    proof {
        if r {
            assert(a@.subrange(0, a@.len() as int) =~= a@);
        } else {
            assert(a@.subrange(0, a@.len() as int) =~= a@);
        }
    }
    r
}

/// Whether a string equals a string slice.
pub fn string_eq_str(a: &String, b: &str) -> (r: bool)
    ensures
        r == (a@ == b@),
{
    let ac = chars_of(a.as_str());
    eq_str(&ac, b)
}

// ---------------------------------------------------------------------------
// Trimming
// ---------------------------------------------------------------------------

/// The number of leading characters of `t` satisfying nothing but whitespace.
pub open spec fn lead_ws(t: Seq<char>) -> int
    decreases t.len(),
{
    if t.len() > 0 && is_ws(t[0]) {
        1 + lead_ws(t.drop_first())
    } else {
        0
    }
}

pub open spec fn trail_ws(t: Seq<char>) -> int
    decreases t.len(),
{
    if t.len() > 0 && is_ws(t.last()) {
        1 + trail_ws(t.drop_last())
    } else {
        0
    }
}

pub open spec fn trim_start(t: Seq<char>) -> Seq<char> {
    t.subrange(lead_ws(t), t.len() as int)
}

pub open spec fn trim_end(t: Seq<char>) -> Seq<char> {
    t.subrange(0, t.len() - trail_ws(t))
}

/// `str::trim`: whitespace removed from both ends.
pub open spec fn trim(t: Seq<char>) -> Seq<char> {
    trim_end(trim_start(t))
}

pub proof fn lemma_lead_ws(t: Seq<char>)
    ensures
        0 <= lead_ws(t) <= t.len(),
        forall|j: int| 0 <= j < lead_ws(t) ==> is_ws(t[j]),
        lead_ws(t) < t.len() ==> !is_ws(t[lead_ws(t)]),
    decreases t.len(),
{
    if t.len() > 0 && is_ws(t[0]) {
        lemma_lead_ws(t.drop_first());
        assert forall|j: int| 0 <= j < lead_ws(t) implies is_ws(t[j]) by {
            if j > 0 {
                assert(t[j] == t.drop_first()[j - 1]);
            }
        }
    }
}

pub proof fn lemma_trail_ws(t: Seq<char>)
    ensures
        0 <= trail_ws(t) <= t.len(),
        forall|j: int| t.len() - trail_ws(t) <= j < t.len() ==> is_ws(t[j]),
        trail_ws(t) < t.len() ==> !is_ws(t[t.len() - trail_ws(t) - 1]),
    decreases t.len(),
{
    if t.len() > 0 && is_ws(t.last()) {
        lemma_trail_ws(t.drop_last());
        assert forall|j: int| t.len() - trail_ws(t) <= j < t.len() implies is_ws(t[j]) by {
            if j < t.len() - 1 {
                assert(t[j] == t.drop_last()[j]);
            }
        }
    }
}

/// Leading whitespace count, computed.
pub fn lead_ws_exec(t: &[char]) -> (r: usize)
    ensures
        r == lead_ws(t@),
{
    let mut i: usize = 0;
    assert(t@.subrange(0, t@.len() as int) =~= t@);
    while i < t.len() && ws_char(t[i])
        invariant
            i <= t@.len(),
            forall|j: int| 0 <= j < i ==> is_ws(t@[j]),
            lead_ws(t@) == i + lead_ws(t@.subrange(i as int, t@.len() as int)),
        decreases t@.len() - i,
    {
        assert(t@.subrange(i as int, t@.len() as int).drop_first() =~= t@.subrange(
            i + 1,
            t@.len() as int,
        ));
        i += 1;
    }
    i
}

pub fn trail_ws_exec(t: &[char]) -> (r: usize)
    ensures
        r == trail_ws(t@),
{
    let mut n: usize = 0;
    assert(t@.subrange(0, t@.len() as int) =~= t@);
    while n < t.len() && ws_char(t[t.len() - 1 - n])
        invariant
            n <= t@.len(),
            trail_ws(t@) == n + trail_ws(t@.subrange(0, t@.len() - n)),
        decreases t@.len() - n,
    {
        assert(t@.subrange(0, t@.len() - n).drop_last() =~= t@.subrange(0, t@.len() - n - 1));
        n += 1;
    }
    proof {
        if n < t@.len() {
        } else {
            assert(t@.subrange(0, t@.len() - n) =~= Seq::<char>::empty());
        }
    }
    n
}

/// `str::trim` on characters.
pub fn trim_exec(t: &[char]) -> (r: Vec<char>)
    ensures
        r@ == trim(t@),
{
    let a = lead_ws_exec(t);
    proof {
        lemma_lead_ws(t@);
    }
    let mid = slice_vec(t, a, t.len());
    let b = trail_ws_exec(&mid);
    proof {
        lemma_trail_ws(mid@);
    }
    slice_vec(&mid, 0, mid.len() - b)
}

} // verus!

verus! {

// ---------------------------------------------------------------------------
// Maximal runs of characters
// ---------------------------------------------------------------------------

/// The maximal runs of consecutive characters satisfying `keep`, scanning `s`
/// with `cur` as the run already begun before it.
pub open spec fn runs(s: Seq<char>, keep: spec_fn(char) -> bool, cur: Seq<char>) -> Seq<
    Seq<char>,
>
    decreases s.len(),
{
    if s.len() == 0 {
        if cur.len() > 0 {
            seq![cur]
        } else {
            seq![]
        }
    } else if keep(s[0]) {
        runs(s.drop_first(), keep, cur.push(s[0]))
    } else if cur.len() > 0 {
        seq![cur] + runs(s.drop_first(), keep, seq![])
    } else {
        runs(s.drop_first(), keep, seq![])
    }
}

pub open spec fn not_ws(c: char) -> bool {
    !is_ws(c)
}

/// `str::split_whitespace`.
pub open spec fn non_ws_keep() -> spec_fn(char) -> bool {
    |c: char| not_ws(c)
}

pub open spec fn split_ws(s: Seq<char>) -> Seq<Seq<char>> {
    runs(s, non_ws_keep(), seq![])
}

/// One step of `runs`: the characters from `i` on, with `cur` already begun.
pub proof fn lemma_runs_step(s: Seq<char>, keep: spec_fn(char) -> bool, cur: Seq<char>, i: int)
    requires
        0 <= i < s.len(),
    ensures
        runs(s.subrange(i, s.len() as int), keep, cur) == (if keep(s[i]) {
            runs(s.subrange(i + 1, s.len() as int), keep, cur.push(s[i]))
        } else if cur.len() > 0 {
            seq![cur] + runs(s.subrange(i + 1, s.len() as int), keep, seq![])
        } else {
            runs(s.subrange(i + 1, s.len() as int), keep, seq![])
        }),
{
    assert(s.subrange(i, s.len() as int).drop_first() =~= s.subrange(i + 1, s.len() as int));
}

/// `str::split_whitespace`, computed.
pub fn split_ws_exec(s: &[char]) -> (r: Vec<Vec<char>>)
    ensures
        r@.len() == split_ws(s@).len(),
        forall|k: int| 0 <= k < r@.len() ==> #[trigger] r@[k]@ == split_ws(s@)[k],
{
    let ghost keep = non_ws_keep();
    let mut out: Vec<Vec<char>> = Vec::new();
    let mut cur: Vec<char> = Vec::new();
    let ghost mut done: Seq<Seq<char>> = seq![];
    let mut i: usize = 0;
    assert(s@.subrange(0, s@.len() as int) =~= s@);
    while i < s.len()
        invariant
            keep == non_ws_keep(),
            i <= s@.len(),
            out@.len() == done.len(),
            forall|k: int| 0 <= k < out@.len() ==> #[trigger] out@[k]@ == done[k],
            split_ws(s@) == done + runs(s@.subrange(i as int, s@.len() as int), keep, cur@),
        decreases s@.len() - i,
    {
        proof {
            lemma_runs_step(s@, keep, cur@, i as int);
        }
        let c = s[i];
        assert(keep(c) == !is_ws(c));
        if !ws_char(c) {
            cur.push(c);
        } else if cur.len() > 0 {
            proof {
                assert(done + (seq![cur@] + runs(s@.subrange(i + 1, s@.len() as int), keep, seq![]))
                    =~= done.push(cur@) + runs(s@.subrange(i + 1, s@.len() as int), keep, seq![]));
                done = done.push(cur@);
            }
            out.push(cur);
            cur = Vec::new();
            assert(cur@ =~= seq![]);
        } else {
            assert(cur@ =~= seq![]);
        }
        i += 1;
    }
    assert(s@.subrange(s@.len() as int, s@.len() as int) =~= Seq::<char>::empty());
    if cur.len() > 0 {
        proof {
            done = done.push(cur@);
        }
        out.push(cur);
    }
    assert(split_ws(s@) =~= done);
    out
}

} // verus!

verus! {

// ---------------------------------------------------------------------------
// Ordering (as `str`'s `Ord`: lexicographic by code point)
// ---------------------------------------------------------------------------

pub open spec fn str_lt(a: Seq<char>, b: Seq<char>) -> bool
    decreases a.len(),
{
    if a.len() == 0 {
        b.len() > 0
    } else if b.len() == 0 {
        false
    } else if a[0] != b[0] {
        a[0] < b[0]
    } else {
        str_lt(a.drop_first(), b.drop_first())
    }
}

pub proof fn lemma_str_lt_irrefl(a: Seq<char>)
    ensures
        !str_lt(a, a),
    decreases a.len(),
{
    if a.len() > 0 {
        lemma_str_lt_irrefl(a.drop_first());
    }
}

pub proof fn lemma_str_lt_trans(a: Seq<char>, b: Seq<char>, c: Seq<char>)
    requires
        str_lt(a, b),
        str_lt(b, c),
    ensures
        str_lt(a, c),
    decreases a.len(),
{
    if a.len() > 0 && b.len() > 0 && c.len() > 0 && a[0] == b[0] && b[0] == c[0] {
        lemma_str_lt_trans(a.drop_first(), b.drop_first(), c.drop_first());
    }
}

pub proof fn lemma_str_lt_total(a: Seq<char>, b: Seq<char>)
    ensures
        str_lt(a, b) || str_lt(b, a) || a == b,
    decreases a.len(),
{
    if a.len() > 0 && b.len() > 0 && a[0] == b[0] {
        lemma_str_lt_total(a.drop_first(), b.drop_first());
        if a.drop_first() == b.drop_first() {
            assert(a =~= seq![a[0]] + a.drop_first());
            assert(b =~= seq![b[0]] + b.drop_first());
        }
    } else if a.len() == 0 && b.len() == 0 {
        assert(a =~= b);
    }
}

pub proof fn lemma_str_lt_asym(a: Seq<char>, b: Seq<char>)
    ensures
        !(str_lt(a, b) && str_lt(b, a)),
    decreases a.len(),
{
    if a.len() > 0 && b.len() > 0 && a[0] == b[0] {
        lemma_str_lt_asym(a.drop_first(), b.drop_first());
    }
}

/// Whether `a` sorts before `b`.
pub fn str_lt_exec(a: &[char], b: &[char]) -> (r: bool)
    ensures
        r == str_lt(a@, b@),
{
    let mut i: usize = 0;
    assert(a@.subrange(0, a@.len() as int) =~= a@);
    assert(b@.subrange(0, b@.len() as int) =~= b@);
    while i < a.len() && i < b.len() && a[i] == b[i]
        invariant
            i <= a@.len(),
            i <= b@.len(),
            str_lt(a@, b@) == str_lt(
                a@.subrange(i as int, a@.len() as int),
                b@.subrange(i as int, b@.len() as int),
            ),
        decreases a@.len() - i,
    {
        assert(a@.subrange(i as int, a@.len() as int).drop_first() =~= a@.subrange(
            i + 1,
            a@.len() as int,
        ));
        assert(b@.subrange(i as int, b@.len() as int).drop_first() =~= b@.subrange(
            i + 1,
            b@.len() as int,
        ));
        i += 1;
    }
    if i == a.len() {
        i < b.len()
    } else if i == b.len() {
        false
    } else {
        a[i] < b[i]
    }
}

} // verus!

verus! {

// ---------------------------------------------------------------------------
// Splitting and joining
// ---------------------------------------------------------------------------

/// The pieces of `s` between occurrences of the non-empty pattern `sep` (`str::split`).
pub open spec fn split_on(s: Seq<char>, sep: Seq<char>) -> Seq<Seq<char>>
    decreases s.len(),
{
    if sep.len() == 0 {
        seq![s]
    } else {
        match find(s, sep) {
            Some(i) => if 0 <= i && i + sep.len() <= s.len() {
                seq![s.subrange(0, i)] + split_on(s.subrange(i + sep.len(), s.len() as int), sep)
            } else {
                seq![s]
            },
            None => seq![s],
        }
    }
}

/// Splits at each occurrence of a non-empty pattern.
pub fn split_on_exec(s: &[char], sep: &[char]) -> (r: Vec<Vec<char>>)
    requires
        sep@.len() > 0,
    ensures
        r@.len() == split_on(s@, sep@).len(),
        forall|k: int| 0 <= k < r@.len() ==> #[trigger] r@[k]@ == split_on(s@, sep@)[k],
{
    let mut out: Vec<Vec<char>> = Vec::new();
    let mut rest: Vec<char> = slice_vec(s, 0, s.len());
    let ghost mut done: Seq<Seq<char>> = seq![];
    assert(rest@ =~= s@);
    loop
        invariant
            sep@.len() > 0,
            out@.len() == done.len(),
            forall|k: int| 0 <= k < out@.len() ==> #[trigger] out@[k]@ == done[k],
            split_on(s@, sep@) == done + split_on(rest@, sep@),
        decreases rest@.len(),
    {
        match find_exec(&rest, sep) {
            Some(i) => {
                proof {
                    lemma_find_bounds(rest@, sep@);
                }
                assert(i + sep@.len() <= rest@.len() && rest@.len() == rest.len() && sep@.len()
                    == sep.len());
                let head = slice_vec(&rest, 0, i);
                let tail = slice_vec(&rest, i + sep.len(), rest.len());
                proof {
                    assert(done + (seq![head@] + split_on(tail@, sep@)) =~= done.push(head@)
                        + split_on(tail@, sep@));
                    done = done.push(head@);
                }
                out.push(head);
                rest = tail;
            },
            None => {
                proof {
                    done = done.push(rest@);
                }
                out.push(rest);
                assert(split_on(s@, sep@) =~= done);
                return out;
            },
        }
    }
}

/// A line without its `'\r'` terminator part, when it had one.
pub open spec fn strip_cr(l: Seq<char>) -> Seq<char> {
    if l.len() > 0 && l.last() == '\r' {
        l.drop_last()
    } else {
        l
    }
}

/// `str::lines`: the pieces between `'\n'`s, each without a `'\r'` just before its
/// `'\n'`, and no empty piece after a final `'\n'`.
pub open spec fn lines(s: Seq<char>) -> Seq<Seq<char>> {
    let parts = split_on(s, seq!['\n']);
    let body = if parts.len() > 0 && parts.last().len() == 0 {
        parts.drop_last()
    } else {
        parts
    };
    Seq::new(
        body.len(),
        |k: int|
            if k < parts.len() - 1 {
                strip_cr(body[k])
            } else {
                body[k]
            },
    )
}

pub proof fn lemma_split_on_nonempty(s: Seq<char>, sep: Seq<char>)
    ensures
        split_on(s, sep).len() > 0,
    decreases s.len(),
{
    if sep.len() > 0 {
        match find(s, sep) {
            Some(i) => if 0 <= i && i + sep.len() <= s.len() {
                lemma_split_on_nonempty(s.subrange(i + sep.len(), s.len() as int), sep);
            },
            None => {},
        }
    }
}

/// `str::lines`, computed.
pub fn lines_exec(s: &[char]) -> (r: Vec<Vec<char>>)
    ensures
        r@.len() == lines(s@).len(),
        forall|k: int| 0 <= k < r@.len() ==> #[trigger] r@[k]@ == lines(s@)[k],
{
    let nl = vec!['\n'];
    assert(nl@ =~= seq!['\n']);
    let parts = split_on_exec(s, &nl);
    proof {
        lemma_split_on_nonempty(s@, seq!['\n']);
    }
    let ghost ps = split_on(s@, seq!['\n']);
    let n = if parts.len() > 0 && parts[parts.len() - 1].len() == 0 {
        parts.len() - 1
    } else {
        parts.len()
    };
    let mut out: Vec<Vec<char>> = Vec::new();
    let mut k: usize = 0;
    while k < n
        invariant
            n <= parts@.len(),
            parts@.len() == ps.len(),
            ps == split_on(s@, seq!['\n']),
            forall|j: int| 0 <= j < parts@.len() ==> #[trigger] parts@[j]@ == ps[j],
            n == lines(s@).len(),
            k <= n,
            out@.len() == k,
            forall|j: int| 0 <= j < k ==> #[trigger] out@[j]@ == lines(s@)[j],
        decreases n - k,
    {
        let p = &parts[k];
        let line = if k + 1 < parts.len() && p.len() > 0 && p[p.len() - 1] == '\r' {
            slice_vec(p, 0, p.len() - 1)
        } else {
            slice_vec(p, 0, p.len())
        };
        assert(line@ =~= lines(s@)[k as int]);
        out.push(line);
        k += 1;
    }
    out
}

/// `s` without every trailing `c` (`str::trim_end_matches` with a character).
pub open spec fn strip_end_all(s: Seq<char>, c: char) -> Seq<char>
    decreases s.len(),
{
    if s.len() > 0 && s.last() == c {
        strip_end_all(s.drop_last(), c)
    } else {
        s
    }
}

/// `s` without every leading `c` (`str::trim_start_matches` with a character).
pub open spec fn strip_start_all(s: Seq<char>, c: char) -> Seq<char>
    decreases s.len(),
{
    if s.len() > 0 && s[0] == c {
        strip_start_all(s.drop_first(), c)
    } else {
        s
    }
}

pub fn strip_end_all_exec(s: &[char], c: char) -> (r: Vec<char>)
    ensures
        r@ == strip_end_all(s@, c),
{
    let mut n = s.len();
    assert(s@.subrange(0, n as int) =~= s@);
    while n > 0 && s[n - 1] == c
        invariant
            n <= s@.len(),
            strip_end_all(s@, c) == strip_end_all(s@.subrange(0, n as int), c),
        decreases n,
    {
        assert(s@.subrange(0, n as int).drop_last() =~= s@.subrange(0, n - 1));
        n -= 1;
    }
    slice_vec(s, 0, n)
}

pub fn strip_start_all_exec(s: &[char], c: char) -> (r: Vec<char>)
    ensures
        r@ == strip_start_all(s@, c),
{
    let mut i: usize = 0;
    assert(s@.subrange(0, s@.len() as int) =~= s@);
    while i < s.len() && s[i] == c
        invariant
            i <= s@.len(),
            strip_start_all(s@, c) == strip_start_all(s@.subrange(i as int, s@.len() as int), c),
        decreases s@.len() - i,
    {
        assert(s@.subrange(i as int, s@.len() as int).drop_first() =~= s@.subrange(
            i + 1,
            s@.len() as int,
        ));
        i += 1;
    }
    slice_vec(s, i, s.len())
}

/// The pieces joined with `sep` between them (`[T]::join`).
pub open spec fn join(parts: Seq<Seq<char>>, sep: Seq<char>) -> Seq<char>
    decreases parts.len(),
{
    if parts.len() == 0 {
        seq![]
    } else if parts.len() == 1 {
        parts[0]
    } else {
        join(parts.drop_last(), sep) + sep + parts.last()
    }
}

/// Joins character sequences with a separator.
pub fn join_exec(parts: &Vec<Vec<char>>, sep: &str) -> (r: String)
    ensures
        r@ == join(parts@.map_values(|v: Vec<char>| v@), sep@),
{
    let ghost ps = parts@.map_values(|v: Vec<char>| v@);
    let mut out = String::new();
    let mut k: usize = 0;
    assert(ps.subrange(0, 0) =~= Seq::<Seq<char>>::empty());
    while k < parts.len()
        invariant
            ps == parts@.map_values(|v: Vec<char>| v@),
            k <= parts@.len(),
            out@ == join(ps.subrange(0, k as int), sep@),
        decreases parts@.len() - k,
    {
        let ghost pre = ps.subrange(0, k + 1);
        assert(pre.drop_last() =~= ps.subrange(0, k as int));
        if k > 0 {
            push_str(&mut out, sep);
        } else {
            assert(pre =~= seq![ps[0]]);
        }
        push_chars(&mut out, &parts[k]);
        assert(out@ =~= join(pre, sep@));
        k += 1;
    }
    assert(ps.subrange(0, parts@.len() as int) =~= ps);
    out
}

/// The views of a sequence of strings.
pub open spec fn strs(v: Seq<String>) -> Seq<Seq<char>> {
    v.map_values(|s: String| s@)
}

/// Joins strings with a separator.
pub fn join_strings(parts: &Vec<String>, sep: &str) -> (r: String)
    ensures
        r@ == join(strs(parts@), sep@),
{
    let mut cs: Vec<Vec<char>> = Vec::new();
    let mut k: usize = 0;
    while k < parts.len()
        invariant
            k <= parts@.len(),
            cs@.len() == k,
            forall|j: int| 0 <= j < k ==> #[trigger] cs@[j]@ == parts@[j]@,
        decreases parts@.len() - k,
    {
        cs.push(chars_of(parts[k].as_str()));
        k += 1;
    }
    assert(cs@.map_values(|v: Vec<char>| v@) =~= strs(parts@));
    join_exec(&cs, sep)
}

// ---------------------------------------------------------------------------
// Lines of a joined text
// ---------------------------------------------------------------------------

/// A text with a character that is not whitespace trims to a non-empty text.
pub proof fn lemma_trim_nonempty(t: Seq<char>, j: int)
    requires
        0 <= j < t.len(),
        !is_ws(t[j]),
    ensures
        trim(t).len() > 0,
{
    lemma_lead_ws(t);
    let a = lead_ws(t);
    assert(a <= j);
    let s = trim_start(t);
    assert(s[j - a] == t[j]);
    lemma_trail_ws(s);
    assert(trail_ws(s) < s.len());
}

pub proof fn lemma_find_from_clean(a: Seq<char>, b: Seq<char>, c: char, i: int)
    requires
        !a.contains(c),
        0 <= i <= a.len(),
    ensures
        find_from(a + seq![c] + b, seq![c], i) == Some(a.len() as int),
    decreases a.len() - i,
{
    let t = a + seq![c] + b;
    if i < a.len() {
        assert(t[i] == a[i]);
        assert(t.subrange(i, i + 1) != seq![c]) by {
            assert(t.subrange(i, i + 1)[0] == a[i]);
            assert(a.contains(a[i]));
        }
        lemma_find_from_clean(a, b, c, i + 1);
    } else {
        assert(t.subrange(i, i + 1) =~= seq![c]);
    }
}

/// Splitting at `c` a text that starts with a part free of `c` gives that part first.
pub proof fn lemma_split_front(a: Seq<char>, b: Seq<char>, c: char)
    requires
        !a.contains(c),
    ensures
        split_on(a + seq![c] + b, seq![c]) == seq![a] + split_on(b, seq![c]),
{
    let t = a + seq![c] + b;
    lemma_find_from_clean(a, b, c, 0);
    assert(t.subrange(0, a.len() as int) =~= a);
    assert(t.subrange(a.len() as int + 1, t.len() as int) =~= b);
}

/// Joining from the front: the first part, the separator, then the rest joined.
pub proof fn lemma_join_front(ls: Seq<Seq<char>>, sep: Seq<char>)
    requires
        ls.len() >= 2,
    ensures
        join(ls, sep) == ls[0] + sep + join(ls.drop_first(), sep),
    decreases ls.len(),
{
    if ls.len() == 2 {
        assert(ls.drop_first().len() == 1);
        assert(join(ls.drop_first(), sep) == ls[1]);
        assert(join(ls.drop_last(), sep) == ls[0]);
    } else {
        lemma_join_front(ls.drop_last(), sep);
        assert(ls.drop_last().drop_first() =~= ls.drop_first().drop_last());
        assert(ls.drop_first().last() == ls.last());
        assert(join(ls, sep) =~= ls[0] + sep + join(ls.drop_first(), sep));
    }
}

/// Lines free of `'\n'` and not ending in `'\r'`.
pub open spec fn plain_lines(ls: Seq<Seq<char>>) -> bool {
    forall|k: int|
        0 <= k < ls.len() ==> !(#[trigger] ls[k]).contains('\n') && !(ls[k].len() > 0 && ls[k].last()
            == '\r')
}

proof fn lemma_split_joined(ls: Seq<Seq<char>>)
    requires
        ls.len() > 0,
        plain_lines(ls),
    ensures
        split_on(join(ls, seq!['\n']) + seq!['\n'], seq!['\n']) == ls.push(seq![]),
    decreases ls.len(),
{
    let nl = seq!['\n'];
    assert(!ls[0].contains('\n'));
    if ls.len() == 1 {
        assert(join(ls, nl) == ls[0]);
        assert(join(ls, nl) + nl =~= ls[0] + nl + Seq::<char>::empty());
        lemma_split_front(ls[0], seq![], '\n');
        assert(find(Seq::<char>::empty(), nl) is None);
        assert(split_on(Seq::<char>::empty(), nl) == seq![Seq::<char>::empty()]);
        assert(seq![ls[0]] + seq![Seq::<char>::empty()] =~= ls.push(seq![]));
    } else {
        let rest = ls.drop_first();
        assert(plain_lines(rest)) by {
            assert forall|k: int| 0 <= k < rest.len() implies !(#[trigger] rest[k]).contains('\n')
                && !(rest[k].len() > 0 && rest[k].last() == '\r') by {
                assert(rest[k] == ls[k + 1]);
            }
        }
        lemma_join_front(ls, nl);
        assert(join(ls, nl) + nl =~= ls[0] + nl + (join(rest, nl) + nl));
        lemma_split_front(ls[0], join(rest, nl) + nl, '\n');
        lemma_split_joined(rest);
        assert(seq![ls[0]] + rest.push(seq![]) =~= ls.push(seq![]));
    }
}

/// The lines of plain lines joined with `'\n'`, each ended by it, are those lines.
pub proof fn lemma_lines_of_joined(ls: Seq<Seq<char>>)
    requires
        ls.len() > 0,
        plain_lines(ls),
    ensures
        lines(join(ls, seq!['\n']) + seq!['\n']) == ls,
{
    lemma_split_joined(ls);
    let parts = ls.push(seq![]);
    assert(parts.drop_last() =~= ls);
    assert forall|k: int| 0 <= k < ls.len() implies strip_cr(#[trigger] ls[k]) == ls[k] by {}
    assert(lines(join(ls, seq!['\n']) + seq!['\n']) =~= ls);
}

/// A text without `c` has no occurrence of it.
pub proof fn lemma_find_absent(t: Seq<char>, c: char, i: int)
    requires
        !t.contains(c),
        0 <= i,
    ensures
        find_from(t, seq![c], i) is None,
    decreases t.len() + 1 - i,
{
    if i + 1 <= t.len() {
        assert(t.subrange(i, i + 1) != seq![c]) by {
            assert(t.subrange(i, i + 1)[0] == t[i]);
            assert(t.contains(t[i]));
        }
        lemma_find_absent(t, c, i + 1);
    }
}

} // verus!

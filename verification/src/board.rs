//! Board layouts: reading the two 5-by-4 grids of item labels, and cutting each group of
//! equal labels into item-shaped pieces.
use vstd::prelude::*;
use crate::text;
use crate::num;

verus! {

/// Columns of a board.
pub const WIDTH: usize = 4;

/// Rows of a board.
pub const HEIGHT: usize = 5;

// ---------------------------------------------------------------------------
// Labels
// ---------------------------------------------------------------------------

pub open spec fn names_view(names: Seq<&str>) -> Seq<Seq<char>> {
    names.map_values(|n: &str| n@)
}

/// `t` is `name` followed by one or more digits (a star tier).
pub open spec fn starred_name(t: Seq<char>, name: Seq<char>) -> bool {
    text::starts_with(t, name) && t.len() > name.len() && num::all_digits(
        t.subrange(name.len() as int, t.len() as int),
    )
}

/// `t` is an item name, or an item name followed by a star tier.
pub open spec fn is_label(t: Seq<char>, names: Seq<Seq<char>>) -> bool {
    names.contains(t) || exists|k: int| 0 <= k < names.len() && starred_name(t, #[trigger] names[k])
}

fn starred_name_exec(t: &[char], name: &[char]) -> (r: bool)
    ensures
        r == starred_name(t@, name@),
{
    if !text::starts_with_exec(t, name) || t.len() <= name.len() {
        return false;
    }
    let rest = text::slice_vec(t, name.len(), t.len());
    assert(rest@ == t@.subrange(name@.len() as int, t@.len() as int));
    let mut i: usize = 0;
    while i < rest.len()
        invariant
            i <= rest@.len(),
            rest@ == t@.subrange(name@.len() as int, t@.len() as int),
            text::starts_with(t@, name@),
            t@.len() > name@.len(),
            forall|j: int| 0 <= j < i ==> text::is_digit(#[trigger] rest@[j]),
        decreases rest@.len() - i,
    {
        if !text::digit_char(rest[i]) {
            assert(!text::is_digit(rest@[i as int]));
            assert(!num::all_digits(rest@));
            return false;
        }
        i += 1;
    }
    true
}

/// A token that is an item name, or an item name followed by a star tier.
pub fn normalize_label(token: &str, names: &[&str]) -> (r: Option<String>)
    ensures
        r matches Some(s) ==> s@ == token@ && is_label(token@, names_view(names@)),
        r is None ==> !is_label(token@, names_view(names@)),
{
    let t = text::chars_of(token);
    let ghost nv = names_view(names@);
    let mut k: usize = 0;
    while k < names.len()
        invariant
            nv == names_view(names@),
            t@ == token@,
            k <= names@.len(),
            forall|j: int| 0 <= j < k ==> nv[j] != t@,
        decreases names@.len() - k,
    {
        if text::eq_str(&t, names[k]) {
            assert(nv[k as int] == t@);
            assert(nv.contains(t@));
            return Some(text::string_from(token));
        }
        k += 1;
    }
    assert(!nv.contains(t@));
    let mut k: usize = 0;
    while k < names.len()
        invariant
            nv == names_view(names@),
            t@ == token@,
            !nv.contains(t@),
            k <= names@.len(),
            forall|j: int| 0 <= j < k ==> !starred_name(t@, #[trigger] nv[j]),
        decreases names@.len() - k,
    {
        let n = text::chars_of(names[k]);
        if starred_name_exec(&t, &n) {
            assert(starred_name(t@, nv[k as int]));
            return Some(text::string_from(token));
        }
        k += 1;
    }
    None
}

// ---------------------------------------------------------------------------
// Rows
// ---------------------------------------------------------------------------

pub open spec fn tab_to_space(s: Seq<char>) -> Seq<char> {
    s.map_values(|c: char| if c == '\t' { ' ' } else { c })
}

/// A row line: tabs read as spaces, and the row header up to `'行'` dropped.
pub open spec fn row_body(line: Seq<char>) -> Seq<char> {
    let s = tab_to_space(line);
    match text::find(s, seq!['行']) {
        Some(p) => if 0 <= p < s.len() {
            text::trim(s.subrange(p + 1, s.len() as int))
        } else {
            s
        },
        None => s,
    }
}

/// A token without surrounding `'|'`s.
pub open spec fn strip_bars(t: Seq<char>) -> Seq<char> {
    text::strip_start_all(text::strip_end_all(t, '|'), '|')
}

/// The labels among the whitespace-separated tokens of a row, in order.
pub open spec fn token_labels(toks: Seq<Seq<char>>, names: Seq<Seq<char>>) -> Seq<Seq<char>>
    decreases toks.len(),
{
    if toks.len() == 0 {
        seq![]
    } else {
        let t = strip_bars(toks.last());
        let prev = token_labels(toks.drop_last(), names);
        if t.len() > 0 && is_label(t, names) {
            prev.push(t)
        } else {
            prev
        }
    }
}

/// A separator between labels written without spaces: whitespace or `'|'`.
pub open spec fn is_sep(c: char) -> bool {
    text::is_ws(c) || c == '|'
}

pub open spec fn lead_sep(s: Seq<char>) -> nat
    decreases s.len(),
{
    if s.len() > 0 && is_sep(s[0]) {
        1 + lead_sep(s.drop_first())
    } else {
        0
    }
}

pub open spec fn lead_digits(s: Seq<char>) -> nat
    decreases s.len(),
{
    if s.len() > 0 && text::is_digit(s[0]) {
        1 + lead_digits(s.drop_first())
    } else {
        0
    }
}

/// The first name (in order) that `s` starts with.
pub open spec fn first_prefix(s: Seq<char>, names: Seq<Seq<char>>, k: int) -> Option<int>
    decreases names.len() - k,
{
    if k < 0 || k >= names.len() {
        None
    } else if text::starts_with(s, names[k]) {
        Some(k)
    } else {
        first_prefix(s, names, k + 1)
    }
}

pub proof fn lemma_lead_sep(s: Seq<char>)
    ensures
        lead_sep(s) <= s.len(),
    decreases s.len(),
{
    if s.len() > 0 && is_sep(s[0]) {
        lemma_lead_sep(s.drop_first());
    }
}

pub proof fn lemma_lead_digits(s: Seq<char>)
    ensures
        lead_digits(s) <= s.len(),
        forall|j: int| 0 <= j < lead_digits(s) ==> text::is_digit(#[trigger] s[j]),
        lead_digits(s) < s.len() ==> !text::is_digit(s[lead_digits(s) as int]),
    decreases s.len(),
{
    if s.len() > 0 && text::is_digit(s[0]) {
        lemma_lead_digits(s.drop_first());
        assert forall|j: int| 0 <= j < lead_digits(s) implies text::is_digit(#[trigger] s[j]) by {
            if j > 0 {
                assert(s[j] == s.drop_first()[j - 1]);
            }
        }
    }
}

/// Reading labels written without spaces: at each step separators are skipped, then the
/// first name the rest starts with is taken with the digits after it, or one character is
/// skipped.
pub open spec fn scan_names(rest: Seq<char>, names: Seq<Seq<char>>) -> Seq<Seq<char>>
    decreases rest.len(),
{
    if text::trim(rest).len() == 0 {
        seq![]
    } else {
        let n0 = lead_sep(rest);
        if n0 >= rest.len() {
            seq![]
        } else {
            let r2 = rest.subrange(n0 as int, rest.len() as int);
            match first_prefix(r2, names, 0) {
                Some(k) => if 0 <= k < names.len() && 0 < names[k].len() <= r2.len() {
                    let a = r2.subrange(names[k].len() as int, r2.len() as int);
                    let d = lead_digits(a);
                    if d <= a.len() {
                        seq![names[k] + a.subrange(0, d as int)] + scan_names(
                            a.subrange(d as int, a.len() as int),
                            names,
                        )
                    } else {
                        seq![]
                    }
                } else {
                    seq![]
                },
                None => scan_names(r2.drop_first(), names),
            }
        }
    }
}

/// The labels of a row: the whitespace-separated tokens that are labels when there are
/// exactly `WIDTH` of them, else the labels read without spaces.
pub open spec fn spec_parse_row(line: Seq<char>, names: Seq<Seq<char>>) -> Seq<Seq<char>> {
    let s = row_body(line);
    let found = token_labels(text::split_ws(s), names);
    if found.len() == WIDTH {
        found
    } else {
        scan_names(s, names)
    }
}

fn tab_to_space_exec(s: &[char]) -> (r: Vec<char>)
    ensures
        r@ == tab_to_space(s@),
{
    let mut out: Vec<char> = Vec::new();
    let mut i: usize = 0;
    while i < s.len()
        invariant
            i <= s@.len(),
            out@ == tab_to_space(s@.subrange(0, i as int)),
        decreases s@.len() - i,
    {
        out.push(if s[i] == '\t' { ' ' } else { s[i] });
        assert(out@ =~= tab_to_space(s@.subrange(0, i + 1)));
        i += 1;
    }
    assert(s@.subrange(0, s@.len() as int) =~= s@);
    out
}

fn row_body_exec(line: &[char]) -> (r: Vec<char>)
    ensures
        r@ == row_body(line@),
{
    let s = tab_to_space_exec(line);
    let h = vec!['行'];
    assert(h@ =~= seq!['行']);
    match text::find_exec(&s, &h) {
        Some(p) => {
            proof {
                text::lemma_find_bounds(s@, h@);
            }
            assert(p + 1 <= s@.len() && s@.len() == s.len());
            let rest = text::slice_vec(&s, p + 1, s.len());
            text::trim_exec(&rest)
        },
        None => s,
    }
}

fn strip_bars_exec(t: &[char]) -> (r: Vec<char>)
    ensures
        r@ == strip_bars(t@),
{
    let a = text::strip_end_all_exec(t, '|');
    text::strip_start_all_exec(&a, '|')
}

fn token_labels_exec(toks: &Vec<Vec<char>>, names: &[&str]) -> (r: Vec<String>)
    ensures
        text::strs(r@) == token_labels(toks@.map_values(|v: Vec<char>| v@), names_view(names@)),
{
    let ghost tv = toks@.map_values(|v: Vec<char>| v@);
    let mut out: Vec<String> = Vec::new();
    let mut k: usize = 0;
    assert(tv.subrange(0, 0) =~= Seq::<Seq<char>>::empty());
    assert(text::strs(out@) =~= Seq::<Seq<char>>::empty());
    while k < toks.len()
        invariant
            tv == toks@.map_values(|v: Vec<char>| v@),
            k <= toks@.len(),
            text::strs(out@) == token_labels(tv.subrange(0, k as int), names_view(names@)),
        decreases toks@.len() - k,
    {
        let ghost pre = tv.subrange(0, k + 1);
        assert(pre.drop_last() =~= tv.subrange(0, k as int));
        let t = strip_bars_exec(&toks[k]);
        if t.len() > 0 {
            let ts = text::string_of(&t);
            match normalize_label(ts.as_str(), names) {
                Some(l) => {
                    let ghost before = out@;
                    out.push(l);
                    assert(text::strs(out@) =~= text::strs(before).push(t@));
                },
                None => {},
            }
        }
        k += 1;
    }
    assert(tv.subrange(0, toks@.len() as int) =~= tv);
    out
}

fn sep_char(c: char) -> (r: bool)
    ensures
        r == is_sep(c),
{
    text::ws_char(c) || c == '|'
}

fn first_prefix_exec(s: &[char], names: &[&str]) -> (r: Option<usize>)
    ensures
        r matches Some(k) ==> first_prefix(s@, names_view(names@), 0) == Some(k as int),
        r is None ==> first_prefix(s@, names_view(names@), 0) is None,
{
    let ghost nv = names_view(names@);
    let mut k: usize = 0;
    while k < names.len()
        invariant
            nv == names_view(names@),
            k <= names@.len(),
            first_prefix(s@, nv, 0) == first_prefix(s@, nv, k as int),
        decreases names@.len() - k,
    {
        let n = text::chars_of(names[k]);
        if text::starts_with_exec(s, &n) {
            return Some(k);
        }
        k += 1;
    }
    None
}

fn scan_names_exec(s: &[char], names: &[&str]) -> (r: Vec<String>)
    ensures
        text::strs(r@) == scan_names(s@, names_view(names@)),
{
    let ghost nv = names_view(names@);
    let mut out: Vec<String> = Vec::new();
    let mut rest: Vec<char> = text::slice_vec(s, 0, s.len());
    assert(rest@ =~= s@);
    assert(text::strs(out@) =~= Seq::<Seq<char>>::empty());
    loop
        invariant
            nv == names_view(names@),
            text::strs(out@) + scan_names(rest@, nv) == scan_names(s@, nv),
        decreases rest@.len(),
    {
        let tr = text::trim_exec(&rest);
        if tr.len() == 0 {
            assert(text::strs(out@) =~= text::strs(out@) + scan_names(rest@, nv));
            return out;
        }
        let mut n0: usize = 0;
        assert(rest@.subrange(0, rest@.len() as int) =~= rest@);
        while n0 < rest.len() && sep_char(rest[n0])
            invariant
                n0 <= rest@.len(),
                lead_sep(rest@) == n0 + lead_sep(rest@.subrange(n0 as int, rest@.len() as int)),
            decreases rest@.len() - n0,
        {
            assert(rest@.subrange(n0 as int, rest@.len() as int).drop_first() =~= rest@.subrange(
                n0 + 1,
                rest@.len() as int,
            ));
            n0 += 1;
        }
        proof {
            if n0 < rest@.len() {
                assert(!is_sep(rest@.subrange(n0 as int, rest@.len() as int)[0]));
            } else {
                assert(rest@.subrange(n0 as int, rest@.len() as int) =~= Seq::<char>::empty());
            }
        }
        if n0 >= rest.len() {
            assert(text::strs(out@) =~= text::strs(out@) + scan_names(rest@, nv));
            return out;
        }
        let r2 = text::slice_vec(&rest, n0, rest.len());
        match first_prefix_exec(&r2, names) {
            Some(k) => {
                proof {
                    lemma_first_prefix(r2@, nv, 0);
                }
                let n = text::chars_of(names[k]);
                if n.len() == 0 || n.len() > r2.len() {
                    assert(text::strs(out@) =~= text::strs(out@) + scan_names(rest@, nv));
                    return out;
                }
                let a = text::slice_vec(&r2, n.len(), r2.len());
                let mut d: usize = 0;
                assert(a@.subrange(0, a@.len() as int) =~= a@);
                while d < a.len() && text::digit_char(a[d])
                    invariant
                        d <= a@.len(),
                        lead_digits(a@) == d + lead_digits(a@.subrange(d as int, a@.len() as int)),
                    decreases a@.len() - d,
                {
                    assert(a@.subrange(d as int, a@.len() as int).drop_first() =~= a@.subrange(
                        d + 1,
                        a@.len() as int,
                    ));
                    d += 1;
                }
                proof {
                    if d < a@.len() {
                        assert(!text::is_digit(a@.subrange(d as int, a@.len() as int)[0]));
                    } else {
                        assert(a@.subrange(d as int, a@.len() as int) =~= Seq::<char>::empty());
                    }
                }
                let mut label = text::string_of(&n);
                text::push_chars(&mut label, &text::slice_vec(&a, 0, d));
                let next = text::slice_vec(&a, d, a.len());
                let ghost before = out@;
                out.push(label);
                assert(text::strs(out@) =~= text::strs(before).push(label@));
                assert(text::strs(out@) + scan_names(next@, nv) =~= text::strs(before) + scan_names(
                    rest@,
                    nv,
                ));
                rest = next;
            },
            None => {
                let next = text::slice_vec(&r2, 1, r2.len());
                assert(next@ =~= r2@.drop_first());
                rest = next;
            },
        }
    }
}

proof fn lemma_first_prefix(s: Seq<char>, names: Seq<Seq<char>>, k: int)
    requires
        0 <= k,
    ensures
        first_prefix(s, names, k) matches Some(j) ==> k <= j < names.len() && text::starts_with(
            s,
            names[j],
        ),
    decreases names.len() - k,
{
    if k < names.len() && !text::starts_with(s, names[k]) {
        lemma_first_prefix(s, names, k + 1);
    }
}

/// The labels of one row line (see `spec_parse_row`).
pub fn parse_row(line: &str, names: &[&str]) -> (r: Vec<String>)
    ensures
        text::strs(r@) == spec_parse_row(line@, names_view(names@)),
{
    let l = text::chars_of(line);
    let s = row_body_exec(&l);
    let toks = text::split_ws_exec(&s);
    assert(toks@.map_values(|v: Vec<char>| v@) =~= text::split_ws(s@));
    let found = token_labels_exec(&toks, names);
    if found.len() == WIDTH {
        return found;
    }
    scan_names_exec(&s, names)
}

// ---------------------------------------------------------------------------
// Cells
// ---------------------------------------------------------------------------

/// A board cell: (row, column).
pub type Cell = (usize, usize);

/// The cells next to `(r, c)` on the board: above, below, left, right.
pub open spec fn spec_neighbors(r: usize, c: usize) -> Seq<Cell> {
    (if r > 0 { seq![((r - 1) as usize, c)] } else { seq![] }) + (if r + 1 < HEIGHT {
        seq![((r + 1) as usize, c)]
    } else {
        seq![]
    }) + (if c > 0 { seq![(r, (c - 1) as usize)] } else { seq![] }) + (if c + 1 < WIDTH {
        seq![(r, (c + 1) as usize)]
    } else {
        seq![]
    })
}

pub fn neighbors(r: usize, c: usize) -> (v: Vec<Cell>)
    ensures
        v@ == spec_neighbors(r, c),
{
    let mut v: Vec<Cell> = Vec::new();
    if r > 0 {
        v.push((r - 1, c));
    }
    if r < HEIGHT - 1 {
        v.push((r + 1, c));
    }
    if c > 0 {
        v.push((r, c - 1));
    }
    if c < WIDTH - 1 {
        v.push((r, c + 1));
    }
    assert(v@ =~= spec_neighbors(r, c));
    v
}

/// Two cells share a side.
pub open spec fn touching(a: Cell, b: Cell) -> bool {
    (a.0 == b.0 && (a.1 == b.1 + 1 || b.1 == a.1 + 1)) || (a.1 == b.1 && (a.0 == b.0 + 1 || b.0
        == a.0 + 1))
}

/// Some cell of `a` shares a side with some cell of `b`.
pub open spec fn spec_adjacent(a: Seq<Cell>, b: Seq<Cell>) -> bool {
    exists|i: int, j: int| 0 <= i < a.len() && 0 <= j < b.len() && touching(#[trigger] a[i], #[trigger] b[j])
}

/// Whether two groups of cells share a side.
pub fn adjacent(a: &[Cell], b: &[Cell]) -> (r: bool)
    ensures
        r == spec_adjacent(a@, b@),
{
    let mut i: usize = 0;
    while i < a.len()
        invariant
            i <= a@.len(),
            forall|x: int, y: int| 0 <= x < i && 0 <= y < b@.len() ==> !touching(#[trigger] a@[x], #[trigger] b@[y]),
        decreases a@.len() - i,
    {
        let (ar, ac) = a[i];
        let mut j: usize = 0;
        while j < b.len()
            invariant
                i < a@.len(),
                (ar, ac) == a@[i as int],
                j <= b@.len(),
                forall|x: int, y: int| 0 <= x < i && 0 <= y < b@.len() ==> !touching(#[trigger] a@[x], #[trigger] b@[y]),
                forall|y: int| 0 <= y < j ==> !touching(a@[i as int], #[trigger] b@[y]),
            decreases b@.len() - j,
        {
            let (br, bc) = b[j];
            if ar == br && ((ac > bc && ac - bc == 1) || (bc > ac && bc - ac == 1)) {
                assert(touching(a@[i as int], b@[j as int]));
                return true;
            }
            if ac == bc && ((ar > br && ar - br == 1) || (br > ar && br - ar == 1)) {
                assert(touching(a@[i as int], b@[j as int]));
                return true;
            }
            j += 1;
        }
        i += 1;
    }
    false
}

/// Adjacency does not depend on the order of the two groups.
pub proof fn lemma_adjacent_symmetric(a: Seq<Cell>, b: Seq<Cell>)
    ensures
        spec_adjacent(a, b) == spec_adjacent(b, a),
{
    if spec_adjacent(a, b) {
        let (i, j) = choose|i: int, j: int| 0 <= i < a.len() && 0 <= j < b.len() && touching(#[trigger] a[i], #[trigger] b[j]);
        assert(touching(b[j], a[i]));
    }
    if spec_adjacent(b, a) {
        let (i, j) = choose|i: int, j: int| 0 <= i < b.len() && 0 <= j < a.len() && touching(#[trigger] b[i], #[trigger] a[j]);
        assert(touching(a[j], b[i]));
    }
}

// ---------------------------------------------------------------------------
// Tiling
// ---------------------------------------------------------------------------

pub open spec fn cell_lt(a: Cell, b: Cell) -> bool {
    a.0 < b.0 || (a.0 == b.0 && a.1 < b.1)
}

/// The least cell (row first, then column) of a non-empty sequence.
pub open spec fn min_cell(s: Seq<Cell>) -> Cell
    decreases s.len(),
{
    if s.len() <= 1 {
        s[0]
    } else {
        let m = min_cell(s.drop_last());
        if cell_lt(s.last(), m) {
            s.last()
        } else {
            m
        }
    }
}

/// The cells of an `h`-row by `w`-column rectangle with top-left cell `(r, c)`, row by row.
pub open spec fn rect(r: usize, c: usize, h: usize, w: usize) -> Seq<Cell> {
    Seq::new((h * w) as nat, |k: int| ((r + k / (w as int)) as usize, (c + k % (w as int)) as usize))
}

/// Every cell of `piece` is in `s`.
pub open spec fn all_in(piece: Seq<Cell>, s: Seq<Cell>) -> bool {
    forall|k: int| 0 <= k < piece.len() ==> s.contains(#[trigger] piece[k])
}

/// `s` without the cells of `piece`, in order.
pub open spec fn remove_all(s: Seq<Cell>, piece: Seq<Cell>) -> Seq<Cell>
    decreases s.len(),
{
    if s.len() == 0 {
        seq![]
    } else if piece.contains(s.last()) {
        remove_all(s.drop_last(), piece)
    } else {
        remove_all(s.drop_last(), piece).push(s.last())
    }
}

/// The first way found to cut `rem` into rectangles of the given (rows, columns) shapes:
/// the rectangle at the least remaining cell is tried with each shape in turn, and the
/// rest is cut the same way. The pieces come last-cut first.
pub open spec fn tiling(rem: Seq<Cell>, shapes: Seq<(usize, usize)>, i: int) -> Option<Seq<Seq<Cell>>>
    decreases rem.len(), shapes.len() - i,
{
    if rem.len() == 0 {
        Some(seq![])
    } else if i < 0 || i >= shapes.len() {
        None
    } else {
        let (h, w) = shapes[i];
        let (r, c) = min_cell(rem);
        let piece = rect(r, c, h, w);
        if h > 0 && w > 0 && all_in(piece, rem) && remove_all(rem, piece).len() < rem.len() {
            match tiling(remove_all(rem, piece), shapes, 0) {
                Some(res) => Some(res.push(piece)),
                None => tiling(rem, shapes, i + 1),
            }
        } else {
            tiling(rem, shapes, i + 1)
        }
    }
}

/// Every shape has at least one row and one column.
pub open spec fn sides_positive(shapes: Seq<(usize, usize)>) -> bool {
    forall|k: int| 0 <= k < shapes.len() ==> 0 < (#[trigger] shapes[k]).0 && 0 < shapes[k].1
}

/// Adding a shape's rows to a cell's row, or its columns to the cell's column, stays
/// within `usize`.
pub open spec fn fits(cells: Seq<Cell>, shapes: Seq<(usize, usize)>) -> bool {
    forall|j: int, k: int|
        0 <= j < cells.len() && 0 <= k < shapes.len() ==> (#[trigger] cells[j]).0 + (
        #[trigger] shapes[k]).0 <= usize::MAX && cells[j].1 + shapes[k].1 <= usize::MAX
}

proof fn lemma_min_cell_in(s: Seq<Cell>)
    requires
        s.len() > 0,
    ensures
        s.contains(min_cell(s)),
    decreases s.len(),
{
    if s.len() > 1 {
        lemma_min_cell_in(s.drop_last());
        let m = min_cell(s.drop_last());
        if !cell_lt(s.last(), m) {
            let j = choose|j: int| 0 <= j < s.drop_last().len() && s.drop_last()[j] == m;
            assert(s[j] == m);
        } else {
            assert(s[s.len() - 1] == s.last());
        }
    } else {
        assert(s[0] == min_cell(s));
    }
}

pub proof fn lemma_remove_all(s: Seq<Cell>, piece: Seq<Cell>)
    ensures
        remove_all(s, piece).len() <= s.len(),
        forall|x: Cell| remove_all(s, piece).contains(x) <==> (s.contains(x) && !piece.contains(x)),
        (exists|x: Cell| s.contains(x) && piece.contains(x)) ==> remove_all(s, piece).len() < s.len(),
    decreases s.len(),
{
    if s.len() > 0 {
        let t = s.drop_last();
        lemma_remove_all(t, piece);
        assert forall|x: Cell| s.contains(x) <==> (t.contains(x) || x == s.last()) by {
            if s.contains(x) {
                let j = choose|j: int| 0 <= j < s.len() && s[j] == x;
                if j < s.len() - 1 {
                    assert(t[j] == x);
                }
            }
            if t.contains(x) {
                let j = choose|j: int| 0 <= j < t.len() && t[j] == x;
                assert(s[j] == x);
            }
            if x == s.last() {
                assert(s[s.len() - 1] == x);
            }
        }
        if !piece.contains(s.last()) {
            let r = remove_all(t, piece);
            assert forall|x: Cell| r.push(s.last()).contains(x) <==> (r.contains(x) || x == s.last()) by {
                if r.push(s.last()).contains(x) {
                    let j = choose|j: int| 0 <= j < r.push(s.last()).len() && r.push(s.last())[j] == x;
                    if j < r.len() {
                        assert(r[j] == x);
                    }
                }
                if r.contains(x) {
                    let j = choose|j: int| 0 <= j < r.len() && r[j] == x;
                    assert(r.push(s.last())[j] == x);
                }
                if x == s.last() {
                    assert(r.push(s.last())[r.len() as int] == x);
                }
            }
        }
    }
}

fn cell_in(s: &Vec<Cell>, x: Cell) -> (r: bool)
    ensures
        r == s@.contains(x),
{
    let mut i: usize = 0;
    while i < s.len()
        invariant
            i <= s@.len(),
            forall|j: int| 0 <= j < i ==> s@[j] != x,
        decreases s@.len() - i,
    {
        let y = s[i];
        if y.0 == x.0 && y.1 == x.1 {
            assert(s@[i as int] == x);
            return true;
        }
        i += 1;
    }
    false
}

fn min_cell_exec(s: &Vec<Cell>) -> (r: Cell)
    requires
        s@.len() > 0,
    ensures
        r == min_cell(s@),
{
    let mut m = s[0];
    let mut i: usize = 1;
    assert(s@.subrange(0, 1) =~= seq![s@[0]]);
    while i < s.len()
        invariant
            1 <= i <= s@.len(),
            m == min_cell(s@.subrange(0, i as int)),
        decreases s@.len() - i,
    {
        let x = s[i];
        assert(s@.subrange(0, i + 1).drop_last() =~= s@.subrange(0, i as int));
        if x.0 < m.0 || (x.0 == m.0 && x.1 < m.1) {
            m = x;
        }
        i += 1;
    }
    assert(s@.subrange(0, s@.len() as int) =~= s@);
    m
}

fn rect_exec(r: usize, c: usize, h: usize, w: usize) -> (v: Vec<Cell>)
    requires
        r + h <= usize::MAX,
        c + w <= usize::MAX,
        0 < h,
        0 < w,
    ensures
        v@ == rect(r, c, h, w),
{
    let mut v: Vec<Cell> = Vec::new();
    let mut rr: usize = 0;
    while rr < h
        invariant
            r + h <= usize::MAX,
            c + w <= usize::MAX,
            0 < h,
            0 < w,
            rr <= h,
            v@.len() == rr * w,
            forall|k: int| 0 <= k < v@.len() ==> #[trigger] v@[k] == ((r + k / (w as int)) as usize, (c + k % (w as int)) as usize),
        decreases h - rr,
    {
        let mut cc: usize = 0;
        while cc < w
            invariant
                r + h <= usize::MAX,
                c + w <= usize::MAX,
                0 < h,
                0 < w,
                rr < h,
                cc <= w,
                v@.len() == rr * w + cc,
                forall|k: int| 0 <= k < v@.len() ==> #[trigger] v@[k] == ((r + k / (w as int)) as usize, (c + k % (w as int)) as usize),
            decreases w - cc,
        {
            proof {
                let k = rr * w + cc;
                assert((rr * w + cc) / (w as int) == rr as int && (rr * w + cc) % (w as int) == cc as int) by (nonlinear_arith)
                    requires
                        0 <= cc < w,
                        0 <= rr,
                        w > 0;
            }
            v.push((r + rr, c + cc));
            cc += 1;
        }
        proof {
            assert(rr * w + w == (rr + 1) * w) by (nonlinear_arith);
        }
        rr += 1;
    }
    assert(v@ =~= rect(r, c, h, w));
    v
}

fn remove_all_exec(s: &Vec<Cell>, piece: &Vec<Cell>) -> (r: Vec<Cell>)
    ensures
        r@ == remove_all(s@, piece@),
{
    let mut out: Vec<Cell> = Vec::new();
    let mut i: usize = 0;
    assert(s@.subrange(0, 0) =~= Seq::<Cell>::empty());
    while i < s.len()
        invariant
            i <= s@.len(),
            out@ == remove_all(s@.subrange(0, i as int), piece@),
        decreases s@.len() - i,
    {
        assert(s@.subrange(0, i + 1).drop_last() =~= s@.subrange(0, i as int));
        if !cell_in(piece, s[i]) {
            out.push(s[i]);
        }
        i += 1;
    }
    assert(s@.subrange(0, s@.len() as int) =~= s@);
    out
}

fn all_in_exec(piece: &Vec<Cell>, s: &Vec<Cell>) -> (r: bool)
    ensures
        r == all_in(piece@, s@),
{
    let mut k: usize = 0;
    while k < piece.len()
        invariant
            k <= piece@.len(),
            forall|j: int| 0 <= j < k ==> s@.contains(#[trigger] piece@[j]),
        decreases piece@.len() - k,
    {
        if !cell_in(s, piece[k]) {
            return false;
        }
        k += 1;
    }
    true
}

proof fn lemma_fits_sub(s: Seq<Cell>, t: Seq<Cell>, shapes: Seq<(usize, usize)>)
    requires
        fits(s, shapes),
        forall|x: Cell| t.contains(x) ==> s.contains(x),
    ensures
        fits(t, shapes),
{
    assert forall|j: int, k: int| 0 <= j < t.len() && 0 <= k < shapes.len() implies (#[trigger] t[j]).0 + (
    #[trigger] shapes[k]).0 <= usize::MAX && t[j].1 + shapes[k].1 <= usize::MAX by {
        assert(t.contains(t[j]));
        let i = choose|i: int| 0 <= i < s.len() && s[i] == t[j];
        assert(s[i].0 + shapes[k].0 <= usize::MAX);
    }
}

/// The first way found to cut the cells into rectangles of the given shapes (see
/// `tiling`), or `None` when there is none.
pub fn backtrack_tile(remaining: &Vec<Cell>, shapes: &Vec<(usize, usize)>) -> (r: Option<Vec<Vec<Cell>>>)
    requires
        sides_positive(shapes@),
        fits(remaining@, shapes@),
    ensures
        match r {
            Some(v) => tiling(remaining@, shapes@, 0) == Some(v@.map_values(|p: Vec<Cell>| p@))
                && is_cutting(v@.map_values(|p: Vec<Cell>| p@), remaining@, shapes@),
            None => tiling(remaining@, shapes@, 0) is None && forall|ps: Seq<Seq<Cell>>|
                !#[trigger] is_cutting(ps, remaining@, shapes@),
        },
    decreases remaining@.len(),
{
    if remaining.len() == 0 {
        let v: Vec<Vec<Cell>> = Vec::new();
        assert(v@.map_values(|p: Vec<Cell>| p@) =~= Seq::<Seq<Cell>>::empty());
        proof {
            lemma_tiling_sound(remaining@, shapes@, 0);
        }
        return Some(v);
    }
    let (r, c) = min_cell_exec(remaining);
    proof {
        lemma_min_cell_in(remaining@);
        let j = choose|j: int| 0 <= j < remaining@.len() && remaining@[j] == min_cell(remaining@);
        assert forall|k: int| 0 <= k < shapes@.len() implies r + (#[trigger] shapes@[k]).0 <= usize::MAX && c
            + shapes@[k].1 <= usize::MAX by {
            assert(remaining@[j].0 + shapes@[k].0 <= usize::MAX);
        }
    }
    let mut i: usize = 0;
    while i < shapes.len()
        invariant
            sides_positive(shapes@),
            fits(remaining@, shapes@),
            remaining@.len() > 0,
            (r, c) == min_cell(remaining@),
            forall|k: int| 0 <= k < shapes@.len() ==> r + (#[trigger] shapes@[k]).0 <= usize::MAX && c
                + shapes@[k].1 <= usize::MAX,
            i <= shapes@.len(),
            tiling(remaining@, shapes@, 0) == tiling(remaining@, shapes@, i as int),
        decreases shapes@.len() - i,
    {
        let (h, w) = shapes[i];
        assert(0 < h && 0 < w && r + h <= usize::MAX && c + w <= usize::MAX) by {
            assert(shapes@[i as int] == (h, w));
        }
        let piece = rect_exec(r, c, h, w);
        if all_in_exec(&piece, remaining) {
            let rest = remove_all_exec(remaining, &piece);
            proof {
                lemma_remove_all(remaining@, piece@);
                assert(h * w > 0) by (nonlinear_arith)
                    requires
                        h > 0,
                        w > 0;
                assert(remaining@.contains(piece@[0]) && piece@.contains(piece@[0]));
                lemma_fits_sub(remaining@, rest@, shapes@);
            }
            match backtrack_tile(&rest, shapes) {
                Some(mut res) => {
                    let ghost before = res@;
                    res.push(piece);
                    assert(res@.map_values(|p: Vec<Cell>| p@) =~= before.map_values(|p: Vec<Cell>| p@).push(
                        piece@,
                    ));
                    proof {
                        lemma_tiling_sound(remaining@, shapes@, 0);
                    }
                    return Some(res);
                },
                None => {},
            }
        }
        i += 1;
    }
    proof {
        assert forall|ps: Seq<Seq<Cell>>| !#[trigger] is_cutting(ps, remaining@, shapes@) by {
            if is_cutting(ps, remaining@, shapes@) {
                lemma_tiling_complete(remaining@, shapes@, ps);
            }
        }
    }
    None
}

/// `p` is a rectangle of one of the shapes.
pub open spec fn shaped(p: Seq<Cell>, shapes: Seq<(usize, usize)>) -> bool {
    exists|k: int, r: usize, c: usize|
        0 <= k < shapes.len() && p == #[trigger] rect(r, c, shapes[k].0, shapes[k].1)
}

/// Some piece holds `x`.
pub open spec fn covered(ps: Seq<Seq<Cell>>, x: Cell) -> bool {
    exists|j: int| 0 <= j < ps.len() && #[trigger] ps[j].contains(x)
}

/// No cell is in two pieces.
pub open spec fn disjoint(ps: Seq<Seq<Cell>>) -> bool {
    forall|j1: int, j2: int, x: Cell|
        0 <= j1 < ps.len() && 0 <= j2 < ps.len() && j1 != j2 && #[trigger] ps[j1].contains(x)
            ==> !#[trigger] ps[j2].contains(x)
}

/// A cutting found for a set of cells is a cutting of exactly those cells: every piece is
/// a rectangle of one of the shapes, no two pieces share a cell, and the pieces hold
/// exactly the cells.
pub proof fn lemma_tiling_sound(rem: Seq<Cell>, shapes: Seq<(usize, usize)>, i: int)
    requires
        0 <= i,
    ensures
        tiling(rem, shapes, i) matches Some(ps) ==> (forall|j: int|
            0 <= j < ps.len() ==> shaped(#[trigger] ps[j], shapes)) && disjoint(ps) && (forall|
            x: Cell,
        | rem.contains(x) <==> #[trigger] covered(ps, x)),
    decreases rem.len(), shapes.len() - i,
{
    if rem.len() == 0 {
        let ps = Seq::<Seq<Cell>>::empty();
        assert(tiling(rem, shapes, i) == Some(ps));
        assert forall|x: Cell| rem.contains(x) <==> #[trigger] covered(ps, x) by {}
    } else if i < 0 || i >= shapes.len() {
    } else {
        let (h, w) = shapes[i];
        let (r, c) = min_cell(rem);
        let piece = rect(r, c, h, w);
        if h > 0 && w > 0 && all_in(piece, rem) && remove_all(rem, piece).len() < rem.len() {
            let rest = remove_all(rem, piece);
            match tiling(rest, shapes, 0) {
                Some(res) => {
                    lemma_tiling_sound(rest, shapes, 0);
                    lemma_remove_all(rem, piece);
                    let ps = res.push(piece);
                    assert(tiling(rem, shapes, i) == Some(ps));
                    assert forall|j: int| 0 <= j < ps.len() implies shaped(#[trigger] ps[j], shapes) by {
                        if j < res.len() {
                            assert(ps[j] == res[j]);
                        } else {
                            assert(ps[j] == rect(r, c, shapes[i].0, shapes[i].1));
                        }
                    }
                    assert forall|x: Cell| rem.contains(x) <==> #[trigger] covered(ps, x) by {
                        if rem.contains(x) {
                            if piece.contains(x) {
                                assert(ps[res.len() as int] == piece);
                            } else {
                                assert(rest.contains(x));
                                assert(covered(res, x));
                                let j = choose|j: int| 0 <= j < res.len() && res[j].contains(x);
                                assert(ps[j] == res[j]);
                            }
                        }
                        if covered(ps, x) {
                            let j = choose|j: int| 0 <= j < ps.len() && ps[j].contains(x);
                            if j < res.len() {
                                assert(ps[j] == res[j]);
                                assert(covered(res, x));
                            } else {
                                assert(ps[j] == piece);
                                let k = choose|k: int| 0 <= k < piece.len() && piece[k] == x;
                                assert(rem.contains(piece[k]));
                            }
                        }
                    }
                    assert forall|j1: int, j2: int, x: Cell|
                        0 <= j1 < ps.len() && 0 <= j2 < ps.len() && j1 != j2 && #[trigger] ps[j1].contains(
                            x,
                        ) implies !#[trigger] ps[j2].contains(x) by {
                        if j1 < res.len() && j2 < res.len() {
                            assert(ps[j1] == res[j1] && ps[j2] == res[j2]);
                        } else if j1 < res.len() {
                            assert(ps[j1] == res[j1]);
                            assert(covered(res, x));
                            assert(rest.contains(x));
                            assert(ps[j2] == piece);
                        } else {
                            assert(ps[j2] == res[j2]);
                            assert(ps[j1] == piece);
                            if ps[j2].contains(x) {
                                assert(covered(res, x));
                                assert(rest.contains(x));
                            }
                        }
                    }
                },
                None => {
                    lemma_tiling_sound(rem, shapes, i + 1);
                },
            }
        } else {
            lemma_tiling_sound(rem, shapes, i + 1);
        }
    }
}

/// `ps` cuts the cells of `rem` into rectangles of the shapes: every piece is a rectangle of
/// one of the shapes, no two pieces share a cell, and the pieces hold exactly the cells.
pub open spec fn is_cutting(ps: Seq<Seq<Cell>>, rem: Seq<Cell>, shapes: Seq<(usize, usize)>) -> bool {
    &&& forall|j: int| 0 <= j < ps.len() ==> shaped(#[trigger] ps[j], shapes)
    &&& disjoint(ps)
    &&& forall|x: Cell| rem.contains(x) <==> #[trigger] covered(ps, x)
}

proof fn lemma_min_cell_least(s: Seq<Cell>)
    requires
        s.len() > 0,
    ensures
        forall|x: Cell| s.contains(x) ==> !cell_lt(x, min_cell(s)),
    decreases s.len(),
{
    if s.len() > 1 {
        let t = s.drop_last();
        lemma_min_cell_least(t);
        assert forall|x: Cell| s.contains(x) implies !cell_lt(x, min_cell(s)) by {
            let j = choose|j: int| 0 <= j < s.len() && s[j] == x;
            if j < s.len() - 1 {
                assert(t[j] == x);
                assert(t.contains(x));
            }
        }
    } else {
        assert forall|x: Cell| s.contains(x) implies !cell_lt(x, min_cell(s)) by {
            let j = choose|j: int| 0 <= j < s.len() && s[j] == x;
        }
    }
}

proof fn lemma_rect_corner_in(r: usize, c: usize, h: usize, w: usize)
    requires
        0 < h,
        0 < w,
    ensures
        rect(r, c, h, w).len() > 0,
        rect(r, c, h, w)[0] == (r, c),
{
    assert(h * w > 0) by (nonlinear_arith)
        requires
            h > 0,
            w > 0,
    ;
    assert(0int / (w as int) == 0 && 0int % (w as int) == 0) by (nonlinear_arith)
        requires
            w > 0,
    ;
}

/// No cell of a rectangle that stays within `usize` comes before its corner.
proof fn lemma_rect_corner(r: usize, c: usize, h: usize, w: usize, t: int)
    requires
        0 < h,
        0 < w,
        r + h <= usize::MAX,
        c + w <= usize::MAX,
        0 <= t < rect(r, c, h, w).len(),
    ensures
        rect(r, c, h, w)[0] == (r, c),
        !cell_lt(rect(r, c, h, w)[t], (r, c)),
{
    assert(h * w > 0) by (nonlinear_arith)
        requires
            h > 0,
            w > 0,
    ;
    assert(t / (w as int) < h && 0 <= t / (w as int)) by (nonlinear_arith)
        requires
            0 <= t < h * w,
            w > 0,
    ;
    assert(0 <= t % (w as int) < w) by (nonlinear_arith)
        requires
            w > 0,
    ;
    assert(t / (w as int) == 0 ==> t % (w as int) == t) by (nonlinear_arith)
        requires
            0 <= t,
            w > 0,
    ;
    assert(0int / (w as int) == 0 && 0int % (w as int) == 0) by (nonlinear_arith)
        requires
            w > 0,
    ;
}

proof fn lemma_tiling_step(rem: Seq<Cell>, shapes: Seq<(usize, usize)>, i: int)
    requires
        0 <= i,
        tiling(rem, shapes, i + 1) is Some,
    ensures
        tiling(rem, shapes, i) is Some,
{
}

proof fn lemma_tiling_down(rem: Seq<Cell>, shapes: Seq<(usize, usize)>, i: int, k: int)
    requires
        0 <= i <= k,
        tiling(rem, shapes, k) is Some,
    ensures
        tiling(rem, shapes, i) is Some,
    decreases k - i,
{
    if i < k {
        lemma_tiling_down(rem, shapes, i + 1, k);
        lemma_tiling_step(rem, shapes, i);
    }
}

/// When the cells can be cut into rectangles of the shapes at all, the search finds a
/// cutting: `tiling` comes back empty only when no cutting exists.
pub proof fn lemma_tiling_complete(rem: Seq<Cell>, shapes: Seq<(usize, usize)>, ps: Seq<Seq<Cell>>)
    requires
        sides_positive(shapes),
        fits(rem, shapes),
        is_cutting(ps, rem, shapes),
    ensures
        tiling(rem, shapes, 0) is Some,
    decreases rem.len(),
{
    if rem.len() > 0 {
        let m = min_cell(rem);
        lemma_min_cell_in(rem);
        lemma_min_cell_least(rem);
        assert(covered(ps, m));
        let j = choose|j: int| 0 <= j < ps.len() && #[trigger] ps[j].contains(m);
        assert(shaped(ps[j], shapes));
        let (k, r0, c0) = choose|k: int, r: usize, c: usize|
            0 <= k < shapes.len() && ps[j] == #[trigger] rect(r, c, shapes[k].0, shapes[k].1);
        let h = shapes[k].0;
        let w = shapes[k].1;
        let piece = ps[j];
        assert(0 < h && 0 < w);
        // The corner of that piece is a cell, so the piece stays within `usize`.
        lemma_rect_corner_in(r0, c0, h, w);
        assert(piece.contains((r0, c0)));
        assert(covered(ps, (r0, c0)));
        assert(rem.contains((r0, c0)));
        let q = choose|q: int| 0 <= q < rem.len() && rem[q] == (r0, c0);
        assert(rem[q].0 + shapes[k].0 <= usize::MAX && rem[q].1 + shapes[k].1 <= usize::MAX);
        // The least cell is that corner.
        let t = choose|t: int| 0 <= t < piece.len() && piece[t] == m;
        lemma_rect_corner(r0, c0, h, w, t);
        assert(!cell_lt((r0, c0), m));
        assert(m == (r0, c0));
        assert(piece == rect(m.0, m.1, h, w));
        // The piece lies in the cells; the rest is cut by the other pieces.
        assert forall|u: int| 0 <= u < piece.len() implies rem.contains(#[trigger] piece[u]) by {
            assert(ps[j].contains(piece[u]));
            assert(covered(ps, piece[u]));
        }
        let rest = remove_all(rem, piece);
        lemma_remove_all(rem, piece);
        assert(rem.contains(m) && piece.contains(m));
        let others = ps.remove(j);
        ps.remove_ensures(j);
        assert forall|u: int| 0 <= u < others.len() implies shaped(#[trigger] others[u], shapes) by {
            if u < j {
                assert(others[u] == ps[u]);
            } else {
                assert(others[u] == ps[u + 1]);
            }
        }
        assert forall|u1: int, u2: int, x: Cell|
            0 <= u1 < others.len() && 0 <= u2 < others.len() && u1 != u2 && #[trigger] others[u1].contains(x)
                implies !#[trigger] others[u2].contains(x) by {
            let v1 = if u1 < j { u1 } else { u1 + 1 };
            let v2 = if u2 < j { u2 } else { u2 + 1 };
            assert(others[u1] == ps[v1] && others[u2] == ps[v2]);
        }
        assert forall|x: Cell| rest.contains(x) <==> #[trigger] covered(others, x) by {
            if rest.contains(x) {
                assert(covered(ps, x));
                let u = choose|u: int| 0 <= u < ps.len() && #[trigger] ps[u].contains(x);
                assert(u != j);
                let v = if u < j { u } else { u - 1 };
                assert(others[v] == ps[u]);
            }
            if covered(others, x) {
                let v = choose|v: int| 0 <= v < others.len() && #[trigger] others[v].contains(x);
                let u = if v < j { v } else { v + 1 };
                assert(others[v] == ps[u]);
                assert(covered(ps, x));
                assert(!ps[j].contains(x));
            }
        }
        lemma_fits_sub(rem, rest, shapes);
        lemma_tiling_complete(rest, shapes, others);
        assert(tiling(rem, shapes, k) is Some);
        lemma_tiling_down(rem, shapes, 0, k);
    }
}

/// The position before which `x` goes among the sorted cells `s`: the first from `i` on
/// that is not less than `x`.
pub open spec fn first_not_less(s: Seq<Cell>, x: Cell, i: int) -> int
    decreases s.len() - i,
{
    if i < 0 || i >= s.len() {
        s.len() as int
    } else if !cell_lt(s[i], x) {
        i
    } else {
        first_not_less(s, x, i + 1)
    }
}

pub proof fn lemma_first_not_less(s: Seq<Cell>, x: Cell, i: int)
    requires
        0 <= i <= s.len(),
    ensures
        i <= first_not_less(s, x, i) <= s.len(),
    decreases s.len() - i,
{
    if i < s.len() && cell_lt(s[i], x) {
        lemma_first_not_less(s, x, i + 1);
    }
}

/// The cells of `s` in increasing order (row first, then column).
pub open spec fn sort_cells(s: Seq<Cell>) -> Seq<Cell>
    decreases s.len(),
{
    if s.len() == 0 {
        seq![]
    } else {
        let t = sort_cells(s.drop_last());
        t.insert(first_not_less(t, s.last(), 0), s.last())
    }
}

pub proof fn lemma_sort_cells_len(s: Seq<Cell>)
    ensures
        sort_cells(s).len() == s.len(),
    decreases s.len(),
{
    if s.len() > 0 {
        lemma_sort_cells_len(s.drop_last());
        let t = sort_cells(s.drop_last());
        let p = first_not_less(t, s.last(), 0);
        lemma_first_not_less(t, s.last(), 0);
        t.insert_ensures(p, s.last());
    }
}

/// Sorting keeps the cells: the sorted cells are those of `s`.
pub proof fn lemma_sort_cells_members(s: Seq<Cell>)
    ensures
        forall|x: Cell| #[trigger] sort_cells(s).contains(x) <==> s.contains(x),
    decreases s.len(),
{
    if s.len() > 0 {
        let t = sort_cells(s.drop_last());
        lemma_sort_cells_members(s.drop_last());
        let p = first_not_less(t, s.last(), 0);
        lemma_first_not_less(t, s.last(), 0);
        t.insert_ensures(p, s.last());
        let u = t.insert(p, s.last());
        assert forall|x: Cell| #[trigger] u.contains(x) <==> s.contains(x) by {
            if u.contains(x) {
                let k = choose|k: int| 0 <= k < u.len() && u[k] == x;
                if k < p {
                    assert(t[k] == x);
                    assert(t.contains(x));
                    let j = choose|j: int| 0 <= j < s.drop_last().len() && s.drop_last()[j] == x;
                    assert(s[j] == x);
                } else if k == p {
                    assert(s[s.len() - 1] == x);
                } else {
                    assert(u[(k - 1) + 1] == t[k - 1]);
                    assert(t.contains(x));
                    let j = choose|j: int| 0 <= j < s.drop_last().len() && s.drop_last()[j] == x;
                    assert(s[j] == x);
                }
            }
            if s.contains(x) {
                let j = choose|j: int| 0 <= j < s.len() && s[j] == x;
                if j == s.len() - 1 {
                    assert(u[p] == x);
                } else {
                    assert(s.drop_last()[j] == x);
                    assert(t.contains(x));
                    let k = choose|k: int| 0 <= k < t.len() && t[k] == x;
                    if k < p {
                        assert(u[k] == x);
                    } else {
                        assert(u[k + 1] == x);
                    }
                }
            }
        }
    }
}

/// The pieces cut from a group without repeated cells hold exactly its cells, each once.
pub proof fn lemma_tile_component_sound(comp: Seq<Cell>, w: usize, h: usize)
    requires
        comp.no_duplicates(),
    ensures
        spec_tile_component(comp, w, h) matches Some(ps) ==> disjoint(ps) && (forall|x: Cell|
            comp.contains(x) <==> #[trigger] covered(ps, x)),
{
    if w == 1 && h == 1 {
        let ps = comp.map_values(|cell: Cell| seq![cell]);
        assert forall|x: Cell| comp.contains(x) <==> #[trigger] covered(ps, x) by {
            if comp.contains(x) {
                let j = choose|j: int| 0 <= j < comp.len() && comp[j] == x;
                assert(ps[j] == seq![x]);
                assert(ps[j][0] == x);
                assert(ps[j].contains(x));
                assert(covered(ps, x));
            }
            if covered(ps, x) {
                let j = choose|j: int| 0 <= j < ps.len() && ps[j].contains(x);
                assert(ps[j] == seq![comp[j]]);
                let k = choose|k: int| 0 <= k < ps[j].len() && ps[j][k] == x;
                assert(comp[j] == x);
                assert(comp.contains(x));
            }
        }
        assert forall|j1: int, j2: int, x: Cell|
            0 <= j1 < ps.len() && 0 <= j2 < ps.len() && j1 != j2 && #[trigger] ps[j1].contains(x)
                implies !#[trigger] ps[j2].contains(x) by {
            assert(ps[j1] == seq![comp[j1]]);
            assert(ps[j2] == seq![comp[j2]]);
            let k1 = choose|k: int| 0 <= k < ps[j1].len() && ps[j1][k] == x;
            if ps[j2].contains(x) {
                let k2 = choose|k: int| 0 <= k < ps[j2].len() && ps[j2][k] == x;
                assert(comp[j1] == comp[j2]);
            }
        }
    } else {
        let shapes = if w == h {
            seq![(h, w)]
        } else {
            seq![(h, w), (w, h)]
        };
        lemma_tiling_sound(sort_cells(comp), shapes, 0);
        lemma_sort_cells_members(comp);
    }
}

fn cell_before(a: Cell, b: Cell) -> (r: bool)
    ensures
        r == cell_lt(a, b),
{
    a.0 < b.0 || (a.0 == b.0 && a.1 < b.1)
}

/// The cells in increasing order.
pub fn sort_cells_exec(s: &Vec<Cell>) -> (r: Vec<Cell>)
    ensures
        r@ == sort_cells(s@),
{
    let mut out: Vec<Cell> = Vec::new();
    let mut i: usize = 0;
    assert(s@.subrange(0, 0) =~= Seq::<Cell>::empty());
    while i < s.len()
        invariant
            i <= s@.len(),
            out@ == sort_cells(s@.subrange(0, i as int)),
        decreases s@.len() - i,
    {
        let x = s[i];
        let mut p: usize = 0;
        while p < out.len() && cell_before(out[p], x)
            invariant
                p <= out@.len(),
                first_not_less(out@, x, 0) == first_not_less(out@, x, p as int),
            decreases out@.len() - p,
        {
            p += 1;
        }
        assert(s@.subrange(0, i + 1).drop_last() =~= s@.subrange(0, i as int));
        assert(s@.subrange(0, i + 1).last() == x);
        out.insert(p, x);
        i += 1;
    }
    assert(s@.subrange(0, s@.len() as int) =~= s@);
    out
}

/// The pieces of one group of equal labels for an item `w` columns wide and `h` rows
/// tall: one piece per cell, in the group's order, for a one-cell item; else a cutting of
/// the group's cells, taken in increasing order, into `h`-by-`w` (or, when the item is not
/// square, `w`-by-`h`) rectangles.
pub open spec fn spec_tile_component(comp: Seq<Cell>, w: usize, h: usize) -> Option<Seq<Seq<Cell>>> {
    if w == 1 && h == 1 {
        Some(comp.map_values(|cell: Cell| seq![cell]))
    } else if w == h {
        tiling(sort_cells(comp), seq![(h, w)], 0)
    } else {
        tiling(sort_cells(comp), seq![(h, w), (w, h)], 0)
    }
}

pub fn tile_component(comp: &Vec<Cell>, w: usize, h: usize) -> (r: Option<Vec<Vec<Cell>>>)
    requires
        0 < w,
        0 < h,
        w == 1 && h == 1 || fits(comp@, seq![(h, w), (w, h)]),
    ensures
        match r {
            Some(v) => spec_tile_component(comp@, w, h) == Some(v@.map_values(|p: Vec<Cell>| p@)),
            None => spec_tile_component(comp@, w, h) is None,
        },
{
    if w == 1 && h == 1 {
        let mut out: Vec<Vec<Cell>> = Vec::new();
        let mut i: usize = 0;
        while i < comp.len()
            invariant
                i <= comp@.len(),
                out@.map_values(|p: Vec<Cell>| p@) == comp@.subrange(0, i as int).map_values(|cell: Cell| seq![cell]),
            decreases comp@.len() - i,
        {
            let ghost before = out@;
            let mut one: Vec<Cell> = Vec::new();
            one.push(comp[i]);
            assert(one@ =~= seq![comp@[i as int]]);
            out.push(one);
            assert(out@.map_values(|p: Vec<Cell>| p@) =~= before.map_values(|p: Vec<Cell>| p@).push(
                seq![comp@[i as int]],
            ));
            assert(comp@.subrange(0, i + 1).map_values(|cell: Cell| seq![cell]) =~= comp@.subrange(
                0,
                i as int,
            ).map_values(|cell: Cell| seq![cell]).push(seq![comp@[i as int]]));
            i += 1;
        }
        assert(comp@.subrange(0, comp@.len() as int) =~= comp@);
        return Some(out);
    }
    let cells = sort_cells_exec(comp);
    proof {
        lemma_sort_cells_len(comp@);
        lemma_sort_cells_members(comp@);
        lemma_fits_sub(comp@, sort_cells(comp@), seq![(h, w), (w, h)]);
    }
    let shapes = if w == h {
        vec![(h, w)]
    } else {
        vec![(h, w), (w, h)]
    };
    proof {
        if w == h {
            assert(shapes@ =~= seq![(h, w)]);
            let t = sort_cells(comp@);
            assert forall|j: int, k: int| 0 <= j < t.len() && 0 <= k < shapes@.len() implies (#[trigger] t[j]).0
                + (#[trigger] shapes@[k]).0 <= usize::MAX && t[j].1 + shapes@[k].1 <= usize::MAX by {
                assert(shapes@[k] == seq![(h, w), (w, h)][0]);
            }
        } else {
            assert(shapes@ =~= seq![(h, w), (w, h)]);
        }
    }
    backtrack_tile(&cells, &shapes)
}

} // verus!

//! The two boards of a battle: reading them from text, finding the groups of equal labels,
//! and turning each group into placed items.
use vstd::prelude::*;
use crate::text;
use crate::num;
use crate::board::{self, Cell, HEIGHT, WIDTH};
use crate::catalog::{Def, DefView, Kind, StarProfile};

verus! {

// ---------------------------------------------------------------------------
// Grids and groups
// ---------------------------------------------------------------------------

/// A cell inside the board.
pub open spec fn in_board(c: Cell) -> bool {
    c.0 < HEIGHT && c.1 < WIDTH
}

/// The row-major position of a cell (`row * WIDTH + column`).
pub open spec fn cell_index(c: Cell) -> int {
    c.0 * WIDTH + c.1
}

/// `HEIGHT` rows of `WIDTH` labels each.
pub open spec fn well_formed_grid(g: Seq<Vec<String>>) -> bool {
    g.len() == HEIGHT && forall|r: int| 0 <= r < HEIGHT ==> (#[trigger] g[r])@.len() == WIDTH
}

/// The label written in a cell.
pub open spec fn label_at(g: Seq<Vec<String>>, c: Cell) -> Seq<char> {
    g[c.0 as int]@[c.1 as int]@
}

/// A cell that a group with label `name` may take: inside the board, with that label, and
/// not yet taken (`taken` is indexed by `cell_index`).
pub open spec fn open_cell(g: Seq<Vec<String>>, taken: Seq<bool>, name: Seq<char>, d: Cell) -> bool {
    in_board(d) && label_at(g, d) == name && !taken[cell_index(d)]
}

/// A walk from `start` through side-sharing cells, each after the first open for the
/// group of `start`'s label.
pub open spec fn is_walk(g: Seq<Vec<String>>, taken: Seq<bool>, start: Cell, w: Seq<Cell>) -> bool {
    &&& w.len() > 0
    &&& w[0] == start
    &&& forall|i: int|
        0 < i < w.len() ==> board::touching(w[i - 1], #[trigger] w[i]) && open_cell(
            g,
            taken,
            label_at(g, start),
            w[i],
        )
}

/// The group of `start`: the cells that walks from it end at.
pub open spec fn group_of(g: Seq<Vec<String>>, taken: Seq<bool>, start: Cell) -> Set<Cell> {
    Set::new(|d: Cell| exists|w: Seq<Cell>| #[trigger] is_walk(g, taken, start, w) && w.last() == d)
}

pub open spec fn count_false(s: Seq<bool>) -> nat
    decreases s.len(),
{
    if s.len() == 0 {
        0
    } else {
        count_false(s.drop_last()) + if s.last() {
            0nat
        } else {
            1nat
        }
    }
}

pub proof fn lemma_count_false_set(s: Seq<bool>, i: int)
    requires
        0 <= i < s.len(),
        !s[i],
    ensures
        count_false(s.update(i, true)) + 1 == count_false(s),
    decreases s.len(),
{
    if i == s.len() - 1 {
        assert(s.update(i, true).drop_last() =~= s.drop_last());
    } else {
        assert(s.update(i, true).drop_last() =~= s.drop_last().update(i, true));
        lemma_count_false_set(s.drop_last(), i);
    }
}

proof fn lemma_neighbors(r: usize, c: usize)
    requires
        in_board((r, c)),
    ensures
        forall|j: int|
            0 <= j < board::spec_neighbors(r, c).len() ==> in_board(
                #[trigger] board::spec_neighbors(r, c)[j],
            ) && board::touching((r, c), board::spec_neighbors(r, c)[j]),
        forall|d: Cell|
            in_board(d) && #[trigger] board::touching((r, c), d) ==> board::spec_neighbors(
                r,
                c,
            ).contains(d),
{
    let n = board::spec_neighbors(r, c);
    let a: int = if r > 0 {
        1
    } else {
        0
    };
    let b: int = if r + 1 < HEIGHT {
        1
    } else {
        0
    };
    let e: int = if c > 0 {
        1
    } else {
        0
    };
    let f: int = if c + 1 < WIDTH {
        1
    } else {
        0
    };
    assert(n.len() == a + b + e + f);
    if r > 0 {
        assert(n[0] == ((r - 1) as usize, c));
    }
    if r + 1 < HEIGHT {
        assert(n[a] == ((r + 1) as usize, c));
    }
    if c > 0 {
        assert(n[a + b] == (r, (c - 1) as usize));
    }
    if c + 1 < WIDTH {
        assert(n[a + b + e] == (r, (c + 1) as usize));
    }
    assert forall|j: int| 0 <= j < n.len() implies in_board(#[trigger] n[j]) && board::touching(
        (r, c),
        n[j],
    ) by {
        if r > 0 && j == 0 {
        } else if r + 1 < HEIGHT && j == a {
        } else if c > 0 && j == a + b {
        } else {
            assert(c + 1 < WIDTH && j == a + b + e);
        }
    }
    assert forall|d: Cell| in_board(d) && #[trigger] board::touching((r, c), d) implies n.contains(
        d,
    ) by {
        if d.0 + 1 == r {
            assert(n[0] == d);
        } else if d.0 == r + 1 {
            assert(n[a] == d);
        } else if d.1 + 1 == c {
            assert(n[a + b] == d);
        } else {
            assert(n[a + b + e] == d);
        }
    }
}

/// One breadth-first visit of `d`: an open cell with label `name` is marked taken and queued.
pub open spec fn visit(
    g: Seq<Vec<String>>,
    name: Seq<char>,
    st: (Seq<bool>, Seq<Cell>),
    d: Cell,
) -> (Seq<bool>, Seq<Cell>) {
    if in_board(d) && !st.0[cell_index(d)] && label_at(g, d) == name {
        (st.0.update(cell_index(d), true), st.1.push(d))
    } else {
        st
    }
}

/// The visits of the cells of `ns`, in order.
pub open spec fn visit_all(
    g: Seq<Vec<String>>,
    name: Seq<char>,
    st: (Seq<bool>, Seq<Cell>),
    ns: Seq<Cell>,
) -> (Seq<bool>, Seq<Cell>)
    decreases ns.len(),
{
    if ns.len() == 0 {
        st
    } else {
        visit(g, name, visit_all(g, name, st, ns.drop_last()), ns.last())
    }
}

pub proof fn lemma_visit_all_measure(
    g: Seq<Vec<String>>,
    name: Seq<char>,
    st: (Seq<bool>, Seq<Cell>),
    ns: Seq<Cell>,
)
    requires
        st.0.len() == WIDTH * HEIGHT,
    ensures
        visit_all(g, name, st, ns).0.len() == WIDTH * HEIGHT,
        count_false(visit_all(g, name, st, ns).0) + visit_all(g, name, st, ns).1.len() == count_false(
            st.0,
        ) + st.1.len(),
        st.1.len() <= visit_all(g, name, st, ns).1.len(),
    decreases ns.len(),
{
    if ns.len() > 0 {
        lemma_visit_all_measure(g, name, st, ns.drop_last());
        let m = visit_all(g, name, st, ns.drop_last());
        let d = ns.last();
        if in_board(d) && !m.0[cell_index(d)] && label_at(g, d) == name {
            lemma_count_false_set(m.0, cell_index(d));
        }
    }
}

/// Breadth-first search from the queue position `head` on: the queue once no queued cell is
/// left to expand.
pub open spec fn bfs(g: Seq<Vec<String>>, name: Seq<char>, seen: Seq<bool>, q: Seq<Cell>, head: nat) -> Seq<
    Cell,
>
    decreases 2 * count_false(seen) + q.len() - head,
{
    if head >= q.len() || seen.len() != WIDTH * HEIGHT {
        q
    } else {
        let st = visit_all(g, name, (seen, q), board::spec_neighbors(q[head as int].0, q[head as int].1));
        proof {
            lemma_visit_all_measure(
                g,
                name,
                (seen, q),
                board::spec_neighbors(q[head as int].0, q[head as int].1),
            );
        }
        bfs(g, name, st.0, st.1, head + 1)
    }
}

/// The group of equal labels around `start`, among the cells not yet taken, in the order
/// a breadth-first search from `start` (neighbors above, below, left, right) meets them.
pub open spec fn spec_component(g: Seq<Vec<String>>, taken: Seq<bool>, start: Cell) -> Seq<Cell> {
    bfs(g, label_at(g, start), taken.update(cell_index(start), true), seq![start], 0)
}

/// Each cell after the first shares a side with an earlier one.
pub open spec fn linked(q: Seq<Cell>) -> bool
    decreases q.len(),
{
    if q.len() <= 1 {
        true
    } else {
        linked(q.drop_last()) && exists|p: int|
            0 <= p < q.len() - 1 && #[trigger] board::touching(q[p], q.last())
    }
}

/// The taken marks are those of `s0` plus the cells of `q`.
#[verifier::opaque]
pub open spec fn tracks(seen: Seq<bool>, s0: Seq<bool>, q: Seq<Cell>) -> bool {
    forall|d: Cell| in_board(d) ==> seen[cell_index(d)] == (s0[cell_index(d)] || q.contains(d))
}

/// Every cell of `q` is open for the group.
#[verifier::opaque]
pub open spec fn all_open(g: Seq<Vec<String>>, s0: Seq<bool>, name: Seq<char>, q: Seq<Cell>) -> bool {
    forall|k: int| 0 <= k < q.len() ==> open_cell(g, s0, name, #[trigger] q[k])
}

/// The open cells next to the first `h` cells of `q` are in `q`.
#[verifier::opaque]
pub open spec fn closed_upto(
    g: Seq<Vec<String>>,
    s0: Seq<bool>,
    name: Seq<char>,
    q: Seq<Cell>,
    h: int,
) -> bool {
    forall|k: int, d: Cell|
        0 <= k < h && #[trigger] board::touching(q[k], d) && open_cell(g, s0, name, d)
            ==> q.contains(d)
}

proof fn lemma_cell_index_injective(a: Cell, b: Cell)
    requires
        in_board(a),
        in_board(b),
        a != b,
    ensures
        cell_index(a) != cell_index(b),
        0 <= cell_index(a) < WIDTH * HEIGHT,
{
}

proof fn lemma_push(
    g: Seq<Vec<String>>,
    s0: Seq<bool>,
    name: Seq<char>,
    q: Seq<Cell>,
    seen: Seq<bool>,
    x: Cell,
    p: int,
    h: int,
)
    requires
        seen.len() == WIDTH * HEIGHT,
        tracks(seen, s0, q),
        linked(q),
        q.no_duplicates(),
        all_open(g, s0, name, q),
        closed_upto(g, s0, name, q, h),
        h <= q.len(),
        open_cell(g, s0, name, x),
        !seen[cell_index(x)],
        0 <= p < q.len(),
        board::touching(q[p], x),
    ensures
        tracks(seen.update(cell_index(x), true), s0, q.push(x)),
        linked(q.push(x)),
        q.push(x).no_duplicates(),
        all_open(g, s0, name, q.push(x)),
        closed_upto(g, s0, name, q.push(x), h),
        forall|y: Cell| q.contains(y) ==> #[trigger] q.push(x).contains(y),
        q.push(x)[q.len() as int] == x,
        count_false(seen.update(cell_index(x), true)) + 1 == count_false(seen),
{
    reveal(tracks);
    reveal(all_open);
    reveal(closed_upto);
    let q2 = q.push(x);
    let i = cell_index(x);
    assert(0 <= i < WIDTH * HEIGHT);
    lemma_count_false_set(seen, i);
    assert(!q.contains(x));
    assert forall|y: Cell| q.contains(y) implies #[trigger] q2.contains(y) by {
        let w = choose|w: int| 0 <= w < q.len() && q[w] == y;
        assert(q2[w] == y);
    }
    assert(q2[q.len() as int] == x);
    assert forall|y: Cell| #[trigger] q2.contains(y) implies q.contains(y) || y == x by {
        let w = choose|w: int| 0 <= w < q2.len() && q2[w] == y;
        if w < q.len() {
            assert(q[w] == y);
        }
    }
    assert forall|a: int, b: int| 0 <= a < q2.len() && 0 <= b < q2.len() && a != b implies q2[a]
        != q2[b] by {
        if a < q.len() && b < q.len() {
        } else if a < q.len() {
            assert(q.contains(q2[a]));
        } else {
            assert(q.contains(q2[b]));
        }
    }
    let seen2 = seen.update(i, true);
    assert forall|d: Cell| in_board(d) implies seen2[cell_index(d)] == (s0[cell_index(d)]
        || q2.contains(d)) by {
        if d != x {
            lemma_cell_index_injective(d, x);
        }
    }
    assert(q2.drop_last() =~= q);
    assert(q2[p] == q[p]);
    assert(board::touching(q2[p], q2.last()));
    assert forall|k: int| 0 <= k < q2.len() implies open_cell(g, s0, name, #[trigger] q2[k]) by {
        if k < q.len() {
            assert(q2[k] == q[k]);
        }
    }
    assert forall|k: int, d: Cell|
        0 <= k < h && #[trigger] board::touching(q2[k], d) && open_cell(g, s0, name, d) implies q2.contains(
        d,
    ) by {
        assert(q2[k] == q[k]);
        assert(q.contains(d));
    }
}

proof fn lemma_walk_in_queue(g: Seq<Vec<String>>, taken: Seq<bool>, start: Cell, q: Seq<Cell>, w: Seq<Cell>)
    requires
        q.len() > 0,
        q[0] == start,
        closed_upto(g, taken, label_at(g, start), q, q.len() as int),
        is_walk(g, taken, start, w),
    ensures
        forall|i: int| 0 <= i < w.len() ==> q.contains(#[trigger] w[i]),
{
    reveal(closed_upto);
    assert forall|i: int| 0 <= i < w.len() implies q.contains(#[trigger] w[i]) by {
        lemma_walk_prefix_in_queue(g, taken, start, q, w, i);
    }
}

proof fn lemma_walk_prefix_in_queue(
    g: Seq<Vec<String>>,
    taken: Seq<bool>,
    start: Cell,
    q: Seq<Cell>,
    w: Seq<Cell>,
    i: int,
)
    requires
        q.len() > 0,
        q[0] == start,
        closed_upto(g, taken, label_at(g, start), q, q.len() as int),
        is_walk(g, taken, start, w),
        0 <= i < w.len(),
    ensures
        q.contains(w[i]),
    decreases i,
{
    if i == 0 {
        assert(q[0] == w[0]);
    } else {
        lemma_walk_prefix_in_queue(g, taken, start, q, w, i - 1);
        let k = choose|k: int| 0 <= k < q.len() && q[k] == w[i - 1];
        reveal(closed_upto);
        assert(board::touching(w[i - 1], w[i]));
        assert(board::touching(q[k], w[i]));
    }
}

proof fn lemma_queue_walks(g: Seq<Vec<String>>, taken: Seq<bool>, start: Cell, q: Seq<Cell>)
    requires
        q.len() > 0,
        q[0] == start,
        all_open(g, taken, label_at(g, start), q),
        linked(q),
    ensures
        forall|k: int|
            0 <= k < q.len() ==> exists|w: Seq<Cell>| is_walk(g, taken, start, w) && w.last() == #[trigger] q[k],
    decreases q.len(),
{
    if q.len() > 1 {
        let t = q.drop_last();
        reveal(all_open);
        assert(all_open(g, taken, label_at(g, start), t)) by {
            assert forall|k: int| 0 <= k < t.len() implies open_cell(
                g,
                taken,
                label_at(g, start),
                #[trigger] t[k],
            ) by {
                assert(t[k] == q[k]);
            }
        }
        lemma_queue_walks(g, taken, start, t);
        let last = q.len() - 1;
        let p = choose|p: int| 0 <= p < q.len() - 1 && #[trigger] board::touching(q[p], q.last());
        assert(t[p] == q[p]);
        let w0 = choose|w: Seq<Cell>| is_walk(g, taken, start, w) && w.last() == t[p];
        let w1 = w0.push(q[last]);
        assert(open_cell(g, taken, label_at(g, start), q[last]));
        assert forall|i: int| 0 < i < w1.len() implies board::touching(w1[i - 1], #[trigger] w1[i])
            && open_cell(g, taken, label_at(g, start), w1[i]) by {
            if i < w0.len() {
                assert(w1[i] == w0[i] && w1[i - 1] == w0[i - 1]);
            } else {
                assert(w1[i - 1] == w0.last());
            }
        }
        assert(is_walk(g, taken, start, w1));
        assert forall|k: int| 0 <= k < q.len() implies exists|w: Seq<Cell>|
            is_walk(g, taken, start, w) && w.last() == #[trigger] q[k] by {
            if k < last {
                assert(t[k] == q[k]);
            } else {
                assert(w1.last() == q[k]);
            }
        }
    } else {
        assert forall|k: int| 0 <= k < q.len() implies exists|w: Seq<Cell>|
            is_walk(g, taken, start, w) && w.last() == #[trigger] q[k] by {
            let w = seq![start];
            assert(is_walk(g, taken, start, w));
            assert(w.last() == q[k]);
        }
    }
}

proof fn lemma_queue_is_group(g: Seq<Vec<String>>, taken: Seq<bool>, start: Cell, q: Seq<Cell>)
    requires
        q.len() > 0,
        q[0] == start,
        all_open(g, taken, label_at(g, start), q),
        closed_upto(g, taken, label_at(g, start), q, q.len() as int),
        linked(q),
    ensures
        forall|d: Cell| #[trigger] q.contains(d) <==> group_of(g, taken, start).contains(d),
{
    lemma_queue_walks(g, taken, start, q);
    assert forall|d: Cell| #[trigger] q.contains(d) <==> group_of(g, taken, start).contains(d) by {
        if q.contains(d) {
            let k = choose|k: int| 0 <= k < q.len() && q[k] == d;
            assert(exists|w: Seq<Cell>| is_walk(g, taken, start, w) && w.last() == q[k]);
        }
        if group_of(g, taken, start).contains(d) {
            let w = choose|w: Seq<Cell>| is_walk(g, taken, start, w) && w.last() == d;
            lemma_walk_in_queue(g, taken, start, q, w);
            assert(w.last() == w[w.len() - 1]);
        }
    }
}

/// Collects the group of equal labels around `(r, c)` in breadth-first order, marking each
/// of its cells as taken.
pub fn component(grid: &Vec<Vec<String>>, seen: &mut Vec<bool>, r: usize, c: usize) -> (out: Vec<
    Cell,
>)
    requires
        well_formed_grid(grid@),
        old(seen)@.len() == WIDTH * HEIGHT,
        in_board((r, c)),
        !old(seen)@[cell_index((r, c))],
    ensures
        final(seen)@.len() == WIDTH * HEIGHT,
        out@.len() > 0,
        out@[0] == (r, c),
        out@.no_duplicates(),
        all_open(grid@, old(seen)@, label_at(grid@, (r, c)), out@),
        tracks(final(seen)@, old(seen)@, out@),
        closed_upto(grid@, old(seen)@, label_at(grid@, (r, c)), out@, out@.len() as int),
        linked(out@),
        out@ == spec_component(grid@, old(seen)@, (r, c)),
        forall|d: Cell| #[trigger] out@.contains(d) <==> group_of(grid@, old(seen)@, (r, c)).contains(d),
{
    let ghost s0 = seen@;
    let ghost name_v = label_at(grid@, (r, c));
    let name: &str = grid[r][c].as_str();
    proof {
        lemma_count_false_set(seen@, cell_index((r, c)));
    }
    seen.set(r * WIDTH + c, true);
    let mut q: Vec<Cell> = Vec::new();
    q.push((r, c));
    let mut head: usize = 0;
    assert(q@ =~= seq![(r, c)]);
    assert(seen@ == s0.update(cell_index((r, c)), true));
    proof {
        reveal(tracks);
        reveal(all_open);
        reveal(closed_upto);
        assert forall|d: Cell| in_board(d) implies seen@[cell_index(d)] == (s0[cell_index(d)]
            || q@.contains(d)) by {
            if d == (r, c) {
                assert(q@[0] == d);
            } else {
                lemma_cell_index_injective(d, (r, c));
                if q@.contains(d) {
                    let j = choose|j: int| 0 <= j < q@.len() && q@[j] == d;
                    assert(j == 0);
                }
            }
        }
        assert(q@.no_duplicates());
    }
    while head < q.len()
        invariant
            well_formed_grid(grid@),
            name@ == name_v,
            name_v == label_at(grid@, (r, c)),
            s0.len() == WIDTH * HEIGHT,
            seen@.len() == WIDTH * HEIGHT,
            head <= q@.len(),
            q@.len() > 0,
            q@[0] == (r, c),
            q@.no_duplicates(),
            all_open(grid@, s0, name_v, q@),
            tracks(seen@, s0, q@),
            closed_upto(grid@, s0, name_v, q@, head as int),
            linked(q@),
            bfs(grid@, name_v, seen@, q@, head as nat) == spec_component(grid@, s0, (r, c)),
        decreases 2 * count_false(seen@) + q@.len() - head,
    {
        let (rr, cc) = q[head];
        assert(in_board((rr, cc))) by {
            reveal(all_open);
            assert(open_cell(grid@, s0, name_v, q@[head as int]));
        }
        let ns = board::neighbors(rr, cc);
        proof {
            lemma_neighbors(rr, cc);
        }
        let ghost cf0 = count_false(seen@);
        let ghost ql0 = q@.len();
        let ghost st0 = (seen@, q@);
        assert(ns@.subrange(0, 0) =~= Seq::<Cell>::empty());
        let mut j: usize = 0;
        while j < ns.len()
            invariant
                well_formed_grid(grid@),
                name@ == name_v,
                s0.len() == WIDTH * HEIGHT,
                seen@.len() == WIDTH * HEIGHT,
                head < ql0 <= q@.len(),
                q@[head as int] == (rr, cc),
                ns@ == board::spec_neighbors(rr, cc),
                forall|jj: int|
                    0 <= jj < ns@.len() ==> in_board(#[trigger] ns@[jj]) && board::touching(
                        (rr, cc),
                        ns@[jj],
                    ),
                count_false(seen@) + q@.len() == cf0 + ql0,
                j <= ns@.len(),
                q@[0] == (r, c),
                q@.no_duplicates(),
                all_open(grid@, s0, name_v, q@),
                tracks(seen@, s0, q@),
                closed_upto(grid@, s0, name_v, q@, head as int),
                linked(q@),
                forall|jj: int|
                    0 <= jj < j && open_cell(grid@, s0, name_v, #[trigger] ns@[jj]) ==> q@.contains(
                        ns@[jj],
                    ),
                (seen@, q@) == visit_all(grid@, name_v, st0, ns@.subrange(0, j as int)),
            decreases ns@.len() - j,
        {
            let (nr, nc) = ns[j];
            assert(in_board((nr, nc))) by {
                assert(in_board(ns@[j as int]));
            }
            let i = nr * WIDTH + nc;
            assert(i == cell_index((nr, nc)));
            assert(ns@.subrange(0, j + 1).drop_last() =~= ns@.subrange(0, j as int));
            assert(ns@.subrange(0, j + 1).last() == (nr, nc));
            if !seen[i] && text::string_eq_str(&grid[nr][nc], name) {
                let ghost qb = q@;
                proof {
                    reveal(tracks);
                    lemma_push(grid@, s0, name_v, q@, seen@, (nr, nc), head as int, head as int);
                }
                seen.set(i, true);
                q.push((nr, nc));
                assert forall|jj: int|
                    0 <= jj <= j && open_cell(grid@, s0, name_v, #[trigger] ns@[jj]) implies q@.contains(
                    ns@[jj],
                ) by {
                    if jj < j {
                        assert(qb.contains(ns@[jj]));
                    } else {
                        assert(q@[qb.len() as int] == ns@[jj]);
                    }
                }
            } else {
                proof {
                    reveal(tracks);
                }
            }
            j += 1;
        }
        assert(ns@.subrange(0, ns@.len() as int) =~= ns@);
        proof {
            reveal(closed_upto);
            assert forall|k: int, d: Cell|
                0 <= k < head + 1 && #[trigger] board::touching(q@[k], d) && open_cell(
                    grid@,
                    s0,
                    name_v,
                    d,
                ) implies q@.contains(d) by {
                if k == head {
                    assert(board::touching((rr, cc), d));
                    assert(ns@.contains(d));
                    let jj = choose|jj: int| 0 <= jj < ns@.len() && ns@[jj] == d;
                    assert(open_cell(grid@, s0, name_v, ns@[jj]));
                }
            }
        }
        head += 1;
    }
    proof {
        lemma_queue_is_group(grid@, s0, (r, c), q@);
    }
    q
}

// ---------------------------------------------------------------------------
// Labels with star tiers
// ---------------------------------------------------------------------------

/// The first name, from position `k` on, that `label` writes with star digits after it.
pub open spec fn first_starred(label: Seq<char>, names: Seq<Seq<char>>, k: int) -> Option<int>
    decreases names.len() - k,
{
    if k < 0 || k >= names.len() {
        None
    } else if board::starred_name(label, names[k]) {
        Some(k)
    } else {
        first_starred(label, names, k + 1)
    }
}

pub proof fn lemma_first_starred(label: Seq<char>, names: Seq<Seq<char>>, k: int)
    requires
        0 <= k,
    ensures
        first_starred(label, names, k) matches Some(j) ==> k <= j < names.len()
            && board::starred_name(label, names[j]),
    decreases names.len() - k,
{
    if k < names.len() && !board::starred_name(label, names[k]) {
        lemma_first_starred(label, names, k + 1);
    }
}

/// A label read as an item name and an optional star tier: a bare name has no tier; a name
/// followed by digits (the first such name in `names`) has the tier the digits give, which
/// must fit in a `u8` and be 1 to 4; anything else is an unknown label.
pub open spec fn spec_split_star_label(label: Seq<char>, names: Seq<Seq<char>>) -> Result<
    (Seq<char>, Option<u8>),
    Seq<char>,
> {
    if names.contains(label) {
        Ok((label, None))
    } else {
        match first_starred(label, names, 0) {
            Some(k) => {
                let v = num::digits_value(label.subrange(names[k].len() as int, label.len() as int));
                if v > 255 {
                    Err(label + " 的星级数字无效"@)
                } else if v < 1 || v > 4 {
                    Err(label + " 的星级必须是 1/2/3/4"@)
                } else {
                    Ok((names[k], Some(v as u8)))
                }
            },
            None => Err("未知装备词条: "@ + label),
        }
    }
}

pub open spec fn count_char(s: Seq<char>, c: char) -> nat
    decreases s.len(),
{
    if s.len() == 0 {
        0
    } else {
        count_char(s.drop_last(), c) + if s.last() == c {
            1nat
        } else {
            0nat
        }
    }
}

proof fn lemma_count_char_concat(a: Seq<char>, b: Seq<char>, c: char)
    ensures
        count_char(a + b, c) == count_char(a, c) + count_char(b, c),
    decreases b.len(),
{
    if b.len() > 0 {
        lemma_count_char_concat(a, b.drop_last(), c);
        assert((a + b).drop_last() =~= a + b.drop_last());
        assert((a + b).last() == b.last());
    } else {
        assert(a + b =~= a);
    }
}

/// A token that reads as a label when rows are read (`normalize_label`) never splits as an
/// unknown label: it splits into a name, or fails only for its star digits.
pub proof fn lemma_label_splits(label: Seq<char>, names: Seq<Seq<char>>)
    requires
        board::is_label(label, names),
    ensures
        spec_split_star_label(label, names) != Err::<(Seq<char>, Option<u8>), Seq<char>>(
            "未知装备词条: "@ + label,
        ),
{
    if !names.contains(label) {
        let k = choose|k: int| 0 <= k < names.len() && board::starred_name(label, #[trigger] names[k]);
        lemma_first_starred_found(label, names, 0, k);
        lemma_first_starred(label, names, 0);
        let unknown = "未知装备词条: "@ + label;
        let bad = label + " 的星级数字无效"@;
        let range = label + " 的星级必须是 1/2/3/4"@;
        reveal_strlit(" 的星级数字无效");
        reveal_strlit(" 的星级必须是 1/2/3/4");
        reveal_strlit("未知装备词条: ");
        lemma_count_char_concat("未知装备词条: "@, label, '效');
        lemma_count_char_concat(label, " 的星级数字无效"@, '效');
        assert(count_char("未知装备词条: "@, '效') == 0) by {
            reveal_with_fuel(count_char, 9);
        }
        assert(count_char(" 的星级数字无效"@, '效') == 1) by {
            reveal_with_fuel(count_char, 9);
        }
        assert(bad != unknown);
        assert(range.len() != unknown.len());
    }
}

proof fn lemma_first_starred_found(label: Seq<char>, names: Seq<Seq<char>>, i: int, k: int)
    requires
        0 <= i <= k < names.len(),
        board::starred_name(label, names[k]),
    ensures
        first_starred(label, names, i) is Some,
    decreases k - i,
{
    if !board::starred_name(label, names[i]) {
        lemma_first_starred_found(label, names, i + 1, k);
    }
}

/// Splits a board label into an item name and its star tier (see `spec_split_star_label`).
pub fn split_star_label(label: &str, names: &[&str]) -> (r: Result<(String, Option<u8>), String>)
    ensures
        match r {
            Ok((n, st)) => spec_split_star_label(label@, board::names_view(names@)) == Ok::<
                (Seq<char>, Option<u8>),
                Seq<char>,
            >((n@, st)),
            Err(e) => spec_split_star_label(label@, board::names_view(names@)) == Err::<
                (Seq<char>, Option<u8>),
                Seq<char>,
            >(e@),
        },
{
    let t = text::chars_of(label);
    let ghost nv = board::names_view(names@);
    let mut k: usize = 0;
    while k < names.len()
        invariant
            nv == board::names_view(names@),
            t@ == label@,
            k <= names@.len(),
            forall|j: int| 0 <= j < k ==> nv[j] != t@,
        decreases names@.len() - k,
    {
        if text::eq_str(&t, names[k]) {
            assert(nv[k as int] == t@);
            assert(nv.contains(t@));
            return Ok((text::string_from(label), None));
        }
        k += 1;
    }
    assert(!nv.contains(t@));
    let mut k: usize = 0;
    while k < names.len()
        invariant
            nv == board::names_view(names@),
            t@ == label@,
            k <= names@.len(),
            first_starred(t@, nv, 0) == first_starred(t@, nv, k as int),
            !nv.contains(t@),
        decreases names@.len() - k,
    {
        let n = text::chars_of(names[k]);
        if text::starts_with_exec(&t, &n) && t.len() > n.len() {
            let rest = text::slice_vec(&t, n.len(), t.len());
            let mut all = true;
            let mut i: usize = 0;
            while i < rest.len()
                invariant
                    i <= rest@.len(),
                    all == (forall|j: int| 0 <= j < i ==> text::is_digit(#[trigger] rest@[j])),
                decreases rest@.len() - i,
            {
                if !text::digit_char(rest[i]) {
                    all = false;
                }
                i += 1;
            }
            if all {
                assert(nv[k as int] == n@);
                assert(rest@ == t@.subrange(nv[k as int].len() as int, t@.len() as int));
                assert(board::starred_name(t@, nv[k as int]));
                assert(first_starred(t@, nv, k as int) == Some(k as int));
                proof {
                    reveal_strlit(" 的星级数字无效");
                    reveal_strlit(" 的星级必须是 1/2/3/4");
                }
                match num::digits_value_bounded(&rest, 255) {
                    None => {
                        let mut e = text::string_from(label);
                        text::push_str(&mut e, " 的星级数字无效");
                        return Err(e);
                    },
                    Some(v) => {
                        if v < 1 || v > 4 {
                            let mut e = text::string_from(label);
                            text::push_str(&mut e, " 的星级必须是 1/2/3/4");
                            return Err(e);
                        }
                        let star: u8 = v as u8;
                        return Ok((text::string_from(names[k]), Some(star)));
                    },
                }
            }
        }
        k += 1;
    }
    let mut e = text::string_from("未知装备词条: ");
    text::push_str(&mut e, label);
    Err(e)
}

// ---------------------------------------------------------------------------
// Reading the two boards
// ---------------------------------------------------------------------------

/// The labels of a grid, row by row.
pub open spec fn grid_view(g: Seq<Vec<String>>) -> Seq<Seq<Seq<char>>> {
    g.map_values(|row: Vec<String>| text::strs(row@))
}

/// What a line is, once trimmed.
pub open spec fn skipped_line(t: Seq<char>) -> bool {
    t.len() == 0 || text::starts_with(t, "```"@) || text::contains(t, "行 / 列"@)
}

pub open spec fn own_heading(t: Seq<char>) -> bool {
    text::contains(t, "现在"@) || text::contains(t, "我这套"@) || text::contains(t, "我方"@)
}

pub open spec fn enemy_heading(t: Seq<char>) -> bool {
    text::contains(t, "敌方"@)
}

/// Reading the lines in order: headings choose the side whose rows follow (0 ours, 1 the
/// enemy's); a row line under a heading adds its labels to that side when it has `WIDTH`.
pub open spec fn read_lines(ls: Seq<Seq<char>>, names: Seq<Seq<char>>) -> (
    Option<int>,
    Seq<Seq<Seq<char>>>,
    Seq<Seq<Seq<char>>>,
)
    decreases ls.len(),
{
    if ls.len() == 0 {
        (None, seq![], seq![])
    } else {
        let (cur, a, b) = read_lines(ls.drop_last(), names);
        let t = text::trim(ls.last());
        if skipped_line(t) {
            (cur, a, b)
        } else if own_heading(t) {
            (Some(0), a, b)
        } else if enemy_heading(t) {
            (Some(1), a, b)
        } else {
            match cur {
                None => (cur, a, b),
                Some(sec) => {
                    let cells = board::spec_parse_row(t, names);
                    if cells.len() != WIDTH {
                        (cur, a, b)
                    } else if sec == 0 {
                        (cur, a.push(cells), b)
                    } else {
                        (cur, a, b.push(cells))
                    }
                },
            }
        }
    }
}

/// The message for a text that does not give both sides exactly `HEIGHT` rows.
pub open spec fn rows_message(a: nat, b: nat) -> Seq<char> {
    "需要解析到双方各 5 行、每行 4 列；当前我方 "@ + num::nat_str(a) + " 行，敌方 "@ + num::nat_str(b)
        + " 行"@
}

/// Our board and the enemy's, read from a text.
pub open spec fn spec_parse_input(t: Seq<char>, names: Seq<Seq<char>>) -> Result<
    (Seq<Seq<Seq<char>>>, Seq<Seq<Seq<char>>>),
    Seq<char>,
> {
    let (_, a, b) = read_lines(text::lines(t), names);
    if a.len() != HEIGHT || b.len() != HEIGHT {
        Err(rows_message(a.len(), b.len()))
    } else {
        Ok((a, b))
    }
}

fn copy_row(row: &Vec<String>) -> (r: Vec<String>)
    ensures
        text::strs(r@) == text::strs(row@),
{
    let mut out: Vec<String> = Vec::new();
    let mut i: usize = 0;
    while i < row.len()
        invariant
            i <= row@.len(),
            text::strs(out@) == text::strs(row@.subrange(0, i as int)),
        decreases row@.len() - i,
    {
        let ghost before = out@;
        let x = text::string_from(row[i].as_str());
        assert(x@ == row@[i as int]@);
        out.push(x);
        assert(text::strs(out@) =~= text::strs(before).push(x@));
        assert(text::strs(row@.subrange(0, i + 1)) =~= text::strs(row@.subrange(0, i as int)).push(
            row@[i as int]@,
        ));
        i += 1;
    }
    assert(row@.subrange(0, row@.len() as int) =~= row@);
    out
}

/// A board from its `HEIGHT` rows of `WIDTH` labels.
pub fn to_grid(rows: &Vec<Vec<String>>) -> (g: Vec<Vec<String>>)
    requires
        rows@.len() == HEIGHT,
        forall|r: int| 0 <= r < HEIGHT ==> (#[trigger] rows@[r])@.len() == WIDTH,
    ensures
        well_formed_grid(g@),
        grid_view(g@) == grid_view(rows@),
{
    let mut g: Vec<Vec<String>> = Vec::new();
    let mut i: usize = 0;
    while i < rows.len()
        invariant
            rows@.len() == HEIGHT,
            forall|r: int| 0 <= r < HEIGHT ==> (#[trigger] rows@[r])@.len() == WIDTH,
            i <= rows@.len(),
            g@.len() == i,
            forall|r: int| 0 <= r < i ==> text::strs((#[trigger] g@[r])@) == text::strs(rows@[r]@),
        decreases rows@.len() - i,
    {
        g.push(copy_row(&rows[i]));
        i += 1;
    }
    assert forall|r: int| 0 <= r < HEIGHT implies (#[trigger] g@[r])@.len() == WIDTH by {
        assert(text::strs(g@[r]@).len() == text::strs(rows@[r]@).len());
    }
    assert(grid_view(g@) =~= grid_view(rows@));
    g
}

fn rows_error(a: usize, b: usize) -> (r: String)
    ensures
        r@ == rows_message(a as nat, b as nat),
{
    let mut e = text::string_from("需要解析到双方各 5 行、每行 4 列；当前我方 ");
    num::push_nat(&mut e, a as u64);
    text::push_str(&mut e, " 行，敌方 ");
    num::push_nat(&mut e, b as u64);
    text::push_str(&mut e, " 行");
    e
}

/// Reads our board and the enemy's from a text with the given item names.
pub fn parse_input(t: &str, names: &[&str]) -> (r: Result<(Vec<Vec<String>>, Vec<Vec<String>>), String>)
    ensures
        match r {
            Ok((a, b)) => well_formed_grid(a@) && well_formed_grid(b@) && spec_parse_input(
                t@,
                board::names_view(names@),
            ) == Ok::<(Seq<Seq<Seq<char>>>, Seq<Seq<Seq<char>>>), Seq<char>>(
                (grid_view(a@), grid_view(b@)),
            ),
            Err(e) => spec_parse_input(t@, board::names_view(names@)) == Err::<
                (Seq<Seq<Seq<char>>>, Seq<Seq<Seq<char>>>),
                Seq<char>,
            >(e@),
        },
{
    let ghost nv = board::names_view(names@);
    let tc = text::chars_of(t);
    let ls = text::lines_exec(&tc);
    let ghost lv = text::lines(t@);
    let fence = text::chars_of("```");
    let header = text::chars_of("行 / 列");
    let now = text::chars_of("现在");
    let mine = text::chars_of("我这套");
    let ours = text::chars_of("我方");
    let theirs = text::chars_of("敌方");
    let mut cur: Option<usize> = None;
    let mut a: Vec<Vec<String>> = Vec::new();
    let mut b: Vec<Vec<String>> = Vec::new();
    let mut k: usize = 0;
    assert(lv.subrange(0, 0) =~= Seq::<Seq<char>>::empty());
    assert(grid_view(a@) =~= Seq::<Seq<Seq<char>>>::empty());
    while k < ls.len()
        invariant
            nv == board::names_view(names@),
            lv == text::lines(t@),
            tc@ == t@,
            ls@.len() == lv.len(),
            forall|j: int| 0 <= j < ls@.len() ==> #[trigger] ls@[j]@ == lv[j],
            fence@ == "```"@,
            header@ == "行 / 列"@,
            now@ == "现在"@,
            mine@ == "我这套"@,
            ours@ == "我方"@,
            theirs@ == "敌方"@,
            k <= ls@.len(),
            forall|r: int| 0 <= r < a@.len() ==> (#[trigger] a@[r])@.len() == WIDTH,
            forall|r: int| 0 <= r < b@.len() ==> (#[trigger] b@[r])@.len() == WIDTH,
            read_lines(lv.subrange(0, k as int), nv) == (
                match cur {
                    Some(x) => Some(x as int),
                    None => None::<int>,
                },
                grid_view(a@),
                grid_view(b@),
            ),
            cur matches Some(x) ==> x < 2,
        decreases ls@.len() - k,
    {
        let ghost pre = lv.subrange(0, k + 1);
        assert(pre.drop_last() =~= lv.subrange(0, k as int));
        assert(pre.last() == ls@[k as int]@);
        let tr = text::trim_exec(&ls[k]);
        if tr.len() == 0 || text::starts_with_exec(&tr, &fence) || text::contains_exec(&tr, &header) {
        } else if text::contains_exec(&tr, &now) || text::contains_exec(&tr, &mine)
            || text::contains_exec(&tr, &ours) {
            cur = Some(0);
        } else if text::contains_exec(&tr, &theirs) {
            cur = Some(1);
        } else {
            match cur {
                None => {},
                Some(sec) => {
                    let line = text::string_of(&tr);
                    let cells = board::parse_row(line.as_str(), names);
                    if cells.len() == WIDTH {
                        let ghost ga = grid_view(a@);
                        let ghost gb = grid_view(b@);
                        if sec == 0 {
                            a.push(cells);
                            assert(grid_view(a@) =~= ga.push(text::strs(cells@)));
                        } else {
                            b.push(cells);
                            assert(grid_view(b@) =~= gb.push(text::strs(cells@)));
                        }
                    }
                },
            }
        }
        k += 1;
    }
    assert(lv.subrange(0, ls@.len() as int) =~= lv);
    if a.len() != HEIGHT || b.len() != HEIGHT {
        return Err(rows_error(a.len(), b.len()));
    }
    let ga = to_grid(&a);
    let gb = to_grid(&b);
    Ok((ga, gb))
}

// ---------------------------------------------------------------------------
// Placing the items of a board
// ---------------------------------------------------------------------------

/// An item placed on a board: its definition, the star tier its label gave, that tier's
/// profile, and the cells it takes.
#[derive(Clone, Debug)]
pub struct Placement {
    pub def: Def,
    pub star: Option<u8>,
    pub star_profile: Option<StarProfile>,
    pub cells: Vec<Cell>,
}

pub struct PlacementView {
    pub def: DefView,
    pub star: Option<u8>,
    pub star_profile: Option<StarProfile>,
    pub cells: Seq<Cell>,
}

impl View for Placement {
    type V = PlacementView;

    open spec fn view(&self) -> PlacementView {
        PlacementView {
            def: self.def@,
            star: self.star,
            star_profile: self.star_profile,
            cells: self.cells@,
        }
    }
}

impl Placement {
    /// An item that acts on its own timer: a weapon or a charm.
    pub fn active(&self) -> (r: bool)
        ensures
            r == (self.def.kind == Kind::Weapon || self.def.kind == Kind::Charm),
    {
        self.def.active()
    }

    /// A weapon.
    pub fn weapon(&self) -> (r: bool)
        ensures
            r == (self.def.kind == Kind::Weapon),
    {
        self.def.weapon()
    }
}

pub open spec fn placements_view(v: Seq<Placement>) -> Seq<PlacementView> {
    v.map_values(|p: Placement| p@)
}

pub open spec fn defs_view(defs: Seq<Def>) -> Seq<DefView> {
    defs.map_values(|d: Def| d@)
}

pub open spec fn shorts(defs: Seq<DefView>) -> Seq<Seq<char>> {
    defs.map_values(|d: DefView| d.short)
}

/// The first definition, from position `k` on, with the given short name.
pub open spec fn def_named(defs: Seq<DefView>, name: Seq<char>, k: int) -> Option<DefView>
    decreases defs.len() - k,
{
    if k < 0 || k >= defs.len() {
        None
    } else if defs[k].short == name {
        Some(defs[k])
    } else {
        def_named(defs, name, k + 1)
    }
}

/// The first profile row for the item `name` at tier `star`.
pub open spec fn find_profile(rows: Seq<(String, StarProfile)>, name: Seq<char>, star: u8) -> Option<
    StarProfile,
>
    decreases rows.len(),
{
    if rows.len() == 0 {
        None
    } else if rows[0].0@ == name && rows[0].1.star == star {
        Some(rows[0].1)
    } else {
        find_profile(rows.drop_first(), name, star)
    }
}

/// The cell at a row-major position.
pub open spec fn cell_at(k: int) -> Cell {
    ((k / WIDTH as int) as usize, (k % WIDTH as int) as usize)
}

/// The taken marks once the cells of `comp` are taken too.
pub open spec fn mark_group(taken: Seq<bool>, comp: Seq<Cell>) -> Seq<bool> {
    Seq::new(taken.len(), |i: int| taken[i] || comp.contains(cell_at(i)))
}

pub open spec fn profile_message(name: Seq<char>, star: u8) -> Seq<char> {
    name + " 暂未写入 "@ + num::nat_str(star as nat) + " 星属性，无法按星级模拟"@
}

pub open spec fn tile_message(name: Seq<char>, n: nat, w: nat, h: nat) -> Seq<char> {
    "无法把 "@ + name + " 的 "@ + num::nat_str(n) + " 个格子切成 "@ + num::nat_str(w) + "*"@
        + num::nat_str(h) + " 或旋转形状"@
}

pub open spec fn place_all(
    def: DefView,
    star: Option<u8>,
    profile: Option<StarProfile>,
    pieces: Seq<Seq<Cell>>,
) -> Seq<PlacementView> {
    pieces.map_values(
        |p: Seq<Cell>| PlacementView { def, star, star_profile: profile, cells: p },
    )
}

pub open spec fn prepend(pre: Seq<PlacementView>, r: Result<Seq<PlacementView>, Seq<char>>) -> Result<
    Seq<PlacementView>,
    Seq<char>,
> {
    match r {
        Ok(rest) => Ok(pre + rest),
        Err(e) => Err(e),
    }
}

/// The items of a board, scanning its cells row by row from position `k` on: each cell
/// not yet taken starts a group of equal labels, whose label names the item and its star
/// tier; the group is cut into pieces of the item's shape, each piece one item.
pub open spec fn spec_build(
    g: Seq<Vec<String>>,
    defs: Seq<DefView>,
    profiles: Seq<(String, StarProfile)>,
    k: nat,
    taken: Seq<bool>,
) -> Result<Seq<PlacementView>, Seq<char>>
    decreases WIDTH * HEIGHT - k,
{
    if k >= WIDTH * HEIGHT {
        Ok(seq![])
    } else if taken[k as int] {
        spec_build(g, defs, profiles, k + 1, taken)
    } else {
        let cell = cell_at(k as int);
        match spec_split_star_label(label_at(g, cell), shorts(defs)) {
            Err(e) => Err(e),
            Ok((name, star)) => match def_named(defs, name, 0) {
                None => Err("未知装备词条: "@ + name),
                Some(def) => {
                    let profile = match star {
                        Some(v) => find_profile(profiles, name, v),
                        None => None,
                    };
                    if star is Some && profile is None {
                        Err(profile_message(name, star->0))
                    } else {
                        let comp = spec_component(g, taken, cell);
                        match board::spec_tile_component(comp, def.w, def.h) {
                            None => Err(tile_message(name, comp.len(), def.w as nat, def.h as nat)),
                            Some(pieces) => prepend(
                                place_all(def, star, profile, pieces),
                                spec_build(g, defs, profiles, k + 1, mark_group(taken, comp)),
                            ),
                        }
                    }
                },
            },
        }
    }
}

/// Every cell free.
pub open spec fn none_taken() -> Seq<bool> {
    Seq::new((WIDTH * HEIGHT) as nat, |i: int| false)
}

/// Some placed item holds `d`.
pub open spec fn held(items: Seq<PlacementView>, d: Cell) -> bool {
    exists|j: int| 0 <= j < items.len() && #[trigger] items[j].cells.contains(d)
}

/// No cell is held by two placed items.
pub open spec fn held_once(items: Seq<PlacementView>) -> bool {
    forall|j1: int, j2: int, d: Cell|
        0 <= j1 < items.len() && 0 <= j2 < items.len() && j1 != j2 && #[trigger] items[j1].cells.contains(d)
            ==> !#[trigger] items[j2].cells.contains(d)
}

/// The items hold exactly the taken cells, each once, all on the board.
#[verifier::opaque]
pub open spec fn placed_ok(items: Seq<PlacementView>, seen: Seq<bool>) -> bool {
    &&& forall|d: Cell| in_board(d) ==> (seen[cell_index(d)] <==> #[trigger] held(items, d))
    &&& held_once(items)
    &&& forall|j: int, d: Cell| 0 <= j < items.len() && #[trigger] items[j].cells.contains(d) ==> in_board(d)
}

proof fn lemma_place_group(
    items: Seq<PlacementView>,
    seen0: Seq<bool>,
    seen1: Seq<bool>,
    g: Seq<Vec<String>>,
    name: Seq<char>,
    comp: Seq<Cell>,
    ps: Seq<Seq<Cell>>,
    def: DefView,
    star: Option<u8>,
    profile: Option<StarProfile>,
)
    requires
        placed_ok(items, seen0),
        seen0.len() == WIDTH * HEIGHT,
        tracks(seen1, seen0, comp),
        all_open(g, seen0, name, comp),
        board::disjoint(ps),
        forall|x: Cell| comp.contains(x) <==> #[trigger] board::covered(ps, x),
    ensures
        placed_ok(items + place_all(def, star, profile, ps), seen1),
{
    reveal(placed_ok);
    reveal(tracks);
    reveal(all_open);
    let add = place_all(def, star, profile, ps);
    let all = items + add;
    assert forall|j: int| 0 <= j < add.len() implies #[trigger] add[j].cells == ps[j] by {}
    assert forall|x: Cell| comp.contains(x) implies in_board(x) && !seen0[cell_index(x)] by {
        let k = choose|k: int| 0 <= k < comp.len() && comp[k] == x;
        assert(open_cell(g, seen0, name, comp[k]));
    }
    assert forall|d: Cell| #[trigger] held(all, d) <==> (held(items, d) || board::covered(ps, d)) by {
        if held(all, d) {
            let j = choose|j: int| 0 <= j < all.len() && all[j].cells.contains(d);
            if j < items.len() {
                assert(all[j] == items[j]);
            } else {
                assert(all[j] == add[j - items.len()]);
                assert(ps[j - items.len()].contains(d));
            }
        }
        if held(items, d) {
            let j = choose|j: int| 0 <= j < items.len() && items[j].cells.contains(d);
            assert(all[j] == items[j]);
        }
        if board::covered(ps, d) {
            let j = choose|j: int| 0 <= j < ps.len() && ps[j].contains(d);
            assert(all[items.len() + j] == add[j]);
            assert(all[items.len() + j].cells.contains(d));
        }
    }
    assert forall|d: Cell| in_board(d) implies (seen1[cell_index(d)] <==> #[trigger] held(all, d)) by {}
    assert forall|j1: int, j2: int, d: Cell|
        0 <= j1 < all.len() && 0 <= j2 < all.len() && j1 != j2 && #[trigger] all[j1].cells.contains(d)
            implies !#[trigger] all[j2].cells.contains(d) by {
        if j1 < items.len() && j2 < items.len() {
            assert(all[j1] == items[j1] && all[j2] == items[j2]);
        } else if j1 >= items.len() && j2 >= items.len() {
            assert(all[j1] == add[j1 - items.len()] && all[j2] == add[j2 - items.len()]);
            assert(ps[j1 - items.len()].contains(d));
        } else if j1 < items.len() {
            assert(all[j1] == items[j1]);
            assert(held(items, d));
            assert(all[j2] == add[j2 - items.len()]);
            if all[j2].cells.contains(d) {
                assert(ps[j2 - items.len()].contains(d));
                assert(board::covered(ps, d));
                assert(comp.contains(d));
            }
        } else {
            assert(all[j2] == items[j2]);
            assert(all[j1] == add[j1 - items.len()]);
            assert(ps[j1 - items.len()].contains(d));
            assert(board::covered(ps, d));
            assert(comp.contains(d));
            if all[j2].cells.contains(d) {
                assert(held(items, d));
            }
        }
    }
    assert forall|j: int, d: Cell| 0 <= j < all.len() && #[trigger] all[j].cells.contains(d) implies in_board(
        d,
    ) by {
        if j < items.len() {
            assert(all[j] == items[j]);
        } else {
            assert(all[j] == add[j - items.len()]);
            assert(ps[j - items.len()].contains(d));
            assert(board::covered(ps, d));
        }
    }
}

fn find_def(defs: &Vec<Def>, name: &str) -> (r: Option<Def>)
    ensures
        match r {
            Some(d) => def_named(defs_view(defs@), name@, 0) == Some(d@),
            None => def_named(defs_view(defs@), name@, 0) is None,
        },
        r matches Some(d) ==> exists|i: int| 0 <= i < defs@.len() && defs@[i] == d,
{
    let ghost dv = defs_view(defs@);
    let n = text::chars_of(name);
    let mut i: usize = 0;
    while i < defs.len()
        invariant
            dv == defs_view(defs@),
            n@ == name@,
            i <= defs@.len(),
            def_named(dv, name@, 0) == def_named(dv, name@, i as int),
        decreases defs@.len() - i,
    {
        if text::eq_str(&n, defs[i].short) {
            assert(dv[i as int].short == name@);
            return Some(defs[i]);
        }
        i += 1;
    }
    None
}

fn find_profile_exec(rows: &Vec<(String, StarProfile)>, name: &str, star: u8) -> (r: Option<
    StarProfile,
>)
    ensures
        r == find_profile(rows@, name@, star),
{
    let n = text::chars_of(name);
    let mut i: usize = 0;
    assert(rows@.subrange(0, rows@.len() as int) =~= rows@);
    while i < rows.len()
        invariant
            n@ == name@,
            i <= rows@.len(),
            find_profile(rows@, name@, star) == find_profile(
                rows@.subrange(i as int, rows@.len() as int),
                name@,
                star,
            ),
        decreases rows@.len() - i,
    {
        assert(rows@.subrange(i as int, rows@.len() as int).drop_first() =~= rows@.subrange(
            i + 1,
            rows@.len() as int,
        ));
        if text::eq_str(&n, rows[i].0.as_str()) && rows[i].1.star == star {
            return Some(rows[i].1);
        }
        i += 1;
    }
    None
}

fn copy_cells(v: &Vec<Cell>) -> (r: Vec<Cell>)
    ensures
        r@ == v@,
{
    let mut out: Vec<Cell> = Vec::new();
    let mut i: usize = 0;
    while i < v.len()
        invariant
            i <= v@.len(),
            out@ == v@.subrange(0, i as int),
        decreases v@.len() - i,
    {
        out.push(v[i]);
        assert(out@ =~= v@.subrange(0, i + 1));
        i += 1;
    }
    assert(v@.subrange(0, v@.len() as int) =~= v@);
    out
}

fn profile_error(name: &str, star: u8) -> (r: String)
    ensures
        r@ == profile_message(name@, star),
{
    let mut e = text::string_from(name);
    text::push_str(&mut e, " 暂未写入 ");
    num::push_nat(&mut e, star as u64);
    text::push_str(&mut e, " 星属性，无法按星级模拟");
    e
}

fn tile_error(name: &str, n: usize, w: usize, h: usize) -> (r: String)
    ensures
        r@ == tile_message(name@, n as nat, w as nat, h as nat),
{
    let mut e = text::string_from("无法把 ");
    text::push_str(&mut e, name);
    text::push_str(&mut e, " 的 ");
    num::push_nat(&mut e, n as u64);
    text::push_str(&mut e, " 个格子切成 ");
    num::push_nat(&mut e, w as u64);
    text::push_str(&mut e, "*");
    num::push_nat(&mut e, h as u64);
    text::push_str(&mut e, " 或旋转形状");
    e
}

/// Every definition is at least one cell wide and tall, and a board row or column plus
/// its width or height stays within `usize`.
pub open spec fn usable_defs(defs: Seq<Def>) -> bool {
    forall|i: int|
        0 <= i < defs.len() ==> 0 < (#[trigger] defs[i]).w <= usize::MAX - HEIGHT && 0 < defs[i].h
            <= usize::MAX - HEIGHT
}

/// Whether every definition meets `usable_defs`.
pub fn usable(defs: &Vec<Def>) -> (r: bool)
    ensures
        r == usable_defs(defs@),
{
    let mut i: usize = 0;
    while i < defs.len()
        invariant
            i <= defs@.len(),
            forall|j: int|
                0 <= j < i ==> 0 < (#[trigger] defs@[j]).w <= usize::MAX - HEIGHT && 0 < defs@[j].h <= usize::MAX
                    - HEIGHT,
        decreases defs@.len() - i,
    {
        let d = defs[i];
        if !(0 < d.w && d.w <= usize::MAX - HEIGHT && 0 < d.h && d.h <= usize::MAX - HEIGHT) {
            return false;
        }
        i += 1;
    }
    true
}

proof fn lemma_board_cells_fit(cells: Seq<Cell>, w: usize, h: usize)
    requires
        forall|j: int| 0 <= j < cells.len() ==> in_board(#[trigger] cells[j]),
        w <= usize::MAX - HEIGHT,
        h <= usize::MAX - HEIGHT,
    ensures
        board::fits(cells, seq![(h, w), (w, h)]),
{
    let sh = seq![(h, w), (w, h)];
    assert forall|j: int, k: int| 0 <= j < cells.len() && 0 <= k < sh.len() implies (
    #[trigger] cells[j]).0 + (#[trigger] sh[k]).0 <= usize::MAX && cells[j].1 + sh[k].1 <= usize::MAX by {
        assert(in_board(cells[j]));
    }
}

/// The items placed on a board (see `spec_build`), or the first error met.
#[verifier::rlimit(40)]
#[verifier::spinoff_prover]
pub fn build_items(grid: &Vec<Vec<String>>, defs: &Vec<Def>, profiles: &Vec<(String, StarProfile)>) -> (r:
    Result<Vec<Placement>, String>)
    requires
        well_formed_grid(grid@),
        usable_defs(defs@),
    ensures
        match r {
            Ok(v) => spec_build(grid@, defs_view(defs@), profiles@, 0, none_taken()) == Ok::<
                Seq<PlacementView>,
                Seq<char>,
            >(v@.map_values(|p: Placement| p@)),
            Err(e) => spec_build(grid@, defs_view(defs@), profiles@, 0, none_taken()) == Err::<
                Seq<PlacementView>,
                Seq<char>,
            >(e@),
        },
        r matches Ok(v) ==> held_once(placements_view(v@)) && (forall|d: Cell|
            in_board(d) ==> #[trigger] held(placements_view(v@), d)) && (forall|
            j: int,
            d: Cell,
        |
            0 <= j < v@.len() && #[trigger] v@[j].cells@.contains(d) ==> in_board(d)),
{
    let ghost dv = defs_view(defs@);
    let mut names: Vec<&str> = Vec::new();
    let mut i: usize = 0;
    while i < defs.len()
        invariant
            dv == defs_view(defs@),
            i <= defs@.len(),
            board::names_view(names@) == shorts(dv).subrange(0, i as int),
        decreases defs@.len() - i,
    {
        let ghost before = names@;
        let sh = defs[i].short;
        names.push(sh);
        assert(board::names_view(names@) =~= board::names_view(before).push(sh@));
        assert(dv[i as int].short == sh@);
        assert(shorts(dv).subrange(0, i + 1) =~= shorts(dv).subrange(0, i as int).push(sh@));
        i += 1;
    }
    assert(shorts(dv).subrange(0, defs@.len() as int) =~= shorts(dv));
    let mut seen: Vec<bool> = Vec::new();
    let mut i: usize = 0;
    while i < WIDTH * HEIGHT
        invariant
            i <= WIDTH * HEIGHT,
            seen@ == Seq::new(i as nat, |j: int| false),
        decreases WIDTH * HEIGHT - i,
    {
        seen.push(false);
        assert(seen@ =~= Seq::new((i + 1) as nat, |j: int| false));
        i += 1;
    }
    let ghost total = spec_build(grid@, dv, profiles@, 0, none_taken());
    let mut out: Vec<Placement> = Vec::new();
    let mut k: usize = 0;
    assert(out@.map_values(|p: Placement| p@) =~= Seq::<PlacementView>::empty());
    assert(seen@ =~= none_taken());
    assert(placed_ok(out@.map_values(|p: Placement| p@), seen@)) by {
        reveal(placed_ok);
    }
    while k < WIDTH * HEIGHT
        invariant
            well_formed_grid(grid@),
            usable_defs(defs@),
            dv == defs_view(defs@),
            board::names_view(names@) == shorts(dv),
            total == spec_build(grid@, dv, profiles@, 0, none_taken()),
            k <= WIDTH * HEIGHT,
            seen@.len() == WIDTH * HEIGHT,
            total == prepend(
                out@.map_values(|p: Placement| p@),
                spec_build(grid@, dv, profiles@, k as nat, seen@),
            ),
            placed_ok(out@.map_values(|p: Placement| p@), seen@),
            forall|i: int| 0 <= i < k ==> seen@[i],
        decreases WIDTH * HEIGHT - k,
    {
        let r = k / WIDTH;
        let c = k % WIDTH;
        assert(cell_at(k as int) == (r, c));
        assert(cell_index((r, c)) == k);
        if !seen[k] {
            let label = grid[r][c].as_str();
            assert(label@ == label_at(grid@, (r, c)));
            let (name, star) = match split_star_label(label, &names) {
                Err(e) => {
                    return Err(e);
                },
                Ok(x) => x,
            };
            let def = match find_def(defs, name.as_str()) {
                None => {
                    let mut e = text::string_from("未知装备词条: ");
                    text::push_str(&mut e, name.as_str());
                    return Err(e);
                },
                Some(d) => d,
            };
            let profile = match star {
                Some(v) => match find_profile_exec(profiles, name.as_str(), v) {
                    Some(p) => Some(p),
                    None => {
                        return Err(profile_error(name.as_str(), v));
                    },
                },
                None => None,
            };
            let ghost s_before = seen@;
            let comp = component(grid, &mut seen, r, c);
            proof {
                reveal(tracks);
                reveal(all_open);
                assert(seen@ =~= mark_group(s_before, comp@)) by {
                    assert forall|i: int| 0 <= i < WIDTH * HEIGHT implies seen@[i] == mark_group(
                        s_before,
                        comp@,
                    )[i] by {
                        assert(in_board(cell_at(i)));
                        assert(cell_index(cell_at(i)) == i);
                    }
                }
                let w = choose|w: int| 0 <= w < defs@.len() && defs@[w] == def;
                assert(0 < defs@[w].w <= usize::MAX - HEIGHT && 0 < defs@[w].h <= usize::MAX - HEIGHT);
                assert forall|j: int| 0 <= j < comp@.len() implies in_board(#[trigger] comp@[j]) by {
                    assert(open_cell(grid@, s_before, label_at(grid@, (r, c)), comp@[j]));
                }
                lemma_board_cells_fit(comp@, def.w, def.h);
            }
            let pieces = match board::tile_component(&comp, def.w, def.h) {
                None => {
                    return Err(tile_error(name.as_str(), comp.len(), def.w, def.h));
                },
                Some(p) => p,
            };
            let ghost pv = pieces@.map_values(|p: Vec<Cell>| p@);
            let ghost out0 = out@.map_values(|p: Placement| p@);
            proof {
                board::lemma_tile_component_sound(comp@, def.w, def.h);
                lemma_place_group(
                    out0,
                    s_before,
                    seen@,
                    grid@,
                    label_at(grid@, (r, c)),
                    comp@,
                    pv,
                    def@,
                    star,
                    profile,
                );
                reveal(tracks);
                assert(comp@[0] == (r, c));
                assert(seen@[cell_index((r, c))]);
                assert forall|i: int| 0 <= i < k + 1 implies seen@[i] by {
                    if i < k {
                        assert(in_board(cell_at(i)));
                        assert(cell_index(cell_at(i)) == i);
                    }
                }
            }
            let mut j: usize = 0;
            while j < pieces.len()
                invariant
                    j <= pieces@.len(),
                    pv == pieces@.map_values(|p: Vec<Cell>| p@),
                    out@.map_values(|p: Placement| p@) == out0 + place_all(
                        def@,
                        star,
                        profile,
                        pv.subrange(0, j as int),
                    ),
                decreases pieces@.len() - j,
            {
                let ghost before = out@;
                out.push(
                    Placement { def, star, star_profile: profile, cells: copy_cells(&pieces[j]) },
                );
                assert(out@.map_values(|p: Placement| p@) =~= before.map_values(|p: Placement| p@).push(
                    PlacementView { def: def@, star, star_profile: profile, cells: pv[j as int] },
                ));
                assert(place_all(def@, star, profile, pv.subrange(0, j + 1)) =~= place_all(
                    def@,
                    star,
                    profile,
                    pv.subrange(0, j as int),
                ).push(PlacementView { def: def@, star, star_profile: profile, cells: pv[j as int] }));
                j += 1;
            }
            assert(pv.subrange(0, pieces@.len() as int) =~= pv);
            proof {
                let nb = spec_build(grid@, dv, profiles@, (k + 1) as nat, seen@);
                match nb {
                    Ok(rest) => {
                        assert(out0 + place_all(def@, star, profile, pv) + rest =~= out0 + (place_all(
                            def@,
                            star,
                            profile,
                            pv,
                        ) + rest));
                    },
                    Err(_) => {},
                }
            }
        }
        k += 1;
    }
    assert(out@.map_values(|p: Placement| p@) + Seq::<PlacementView>::empty() =~= out@.map_values(
        |p: Placement| p@,
    ));
    proof {
        reveal(placed_ok);
        let ov = out@.map_values(|p: Placement| p@);
        assert(ov == placements_view(out@));
        assert forall|d: Cell| in_board(d) implies #[trigger] held(ov, d) by {
            assert(seen@[cell_index(d)]);
        }
        assert forall|j: int, d: Cell| 0 <= j < out@.len() && #[trigger] out@[j].cells@.contains(d) implies in_board(
            d,
        ) by {
            assert(ov[j].cells == out@[j].cells@);
        }
    }
    Ok(out)
}

/// The text of the built-in example.
pub open spec fn sample_text() -> Seq<char> {
    "
现在用我这套：

行 / 列\t第1列\t第2列\t第3列\t第4列
第1行\t百战\t冰魄\t通达\t冰魄
第2行\t吐纳\t冰魄\t战神\t冰魄
第3行\t玄武\t冰魄\t快意\t冰魄
第4行\t天响\t穿颅\t冰髓\t冰髓
第5行\t冻结\t续命术\t冰髓\t冰髓

敌方用这套：

行 / 列\t第1列\t第2列\t第3列\t第4列
第1行\t振魄\t冰髓\t冰髓\t白虎之力
第2行\t快意\t冰髓\t冰髓\t穿颅
第3行\t冰魄 通达 龙弧 龙弧
第4行\t冰魄 通达 龙弧 龙弧
第5行\t冰魄 烛神令 烛神令 烛神令
"@
}

/// The built-in example: our board and the enemy's.
pub fn sample_input() -> (r: &'static str)
    ensures
        r@ == sample_text(),
{
    "
现在用我这套：

行 / 列	第1列	第2列	第3列	第4列
第1行	百战	冰魄	通达	冰魄
第2行	吐纳	冰魄	战神	冰魄
第3行	玄武	冰魄	快意	冰魄
第4行	天响	穿颅	冰髓	冰髓
第5行	冻结	续命术	冰髓	冰髓

敌方用这套：

行 / 列	第1列	第2列	第3列	第4列
第1行	振魄	冰髓	冰髓	白虎之力
第2行	快意	冰髓	冰髓	穿颅
第3行	冰魄 通达 龙弧 龙弧
第4行	冰魄 通达 龙弧 龙弧
第5行	冰魄 烛神令 烛神令 烛神令
"
}

} // verus!

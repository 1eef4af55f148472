use vstd::prelude::*;
use crate::board::{Ball, Grid, Mask, in_grid, count_marked, marked_at, lemma_count_update, lemma_count_bound};

verus! {

/// Two cells that share a side.
pub open spec fn adjacent(p: (int, int), q: (int, int)) -> bool {
    (p.0 == q.0 && (p.1 == q.1 + 1 || p.1 + 1 == q.1)) || (p.1 == q.1 && (p.0 == q.0 + 1
        || p.0 + 1 == q.0))
}

/// A walk over the board that steps between adjacent cells and, after its
/// first cell, passes through empty cells only.
pub open spec fn is_path(g: Grid, p: Seq<(int, int)>) -> bool {
    &&& p.len() >= 1
    &&& forall|k: int| 0 <= k < p.len() ==> in_grid(#[trigger] p[k].0, p[k].1)
    &&& forall|k: int| 1 <= k < p.len() ==> g[#[trigger] p[k].0][p[k].1] == Ball::Empty
    &&& forall|k: int| 0 <= k < p.len() - 1 ==> adjacent(#[trigger] p[k], p[k + 1])
}

/// `to` can be reached from `from` by a walk through empty cells.
pub open spec fn reachable(g: Grid, from: (int, int), to: (int, int)) -> bool {
    exists|p: Seq<(int, int)>| is_path(g, p) && p[0] == from && p.last() == to
}

/// Some cell beside `(a, b)` is marked.
pub open spec fn neighbour_marked(t: Mask, a: int, b: int) -> bool {
    (a > 0 && t[a - 1][b]) || (a < 8 && t[a + 1][b]) || (b > 0 && t[a][b - 1]) || (b < 8
        && t[a][b + 1])
}

/// Every empty cell beside a marked cell is marked.
pub open spec fn closed(g: Grid, t: Mask) -> bool {
    forall|a: int, b: int|
        in_grid(a, b) && g[a][b] == Ball::Empty && neighbour_marked(t, a, b) ==> #[trigger] t[a][b]
}

/// Every marked cell is reachable from `from`.
pub open spec fn sound(g: Grid, t: Mask, from: (int, int)) -> bool {
    forall|a: int, b: int| in_grid(a, b) && #[trigger] t[a][b] ==> reachable(g, from, (a, b))
}

/// Every cell of the board reaches itself.
pub proof fn lemma_reachable_reflexive(g: Grid, p: (int, int))
    requires
        in_grid(p.0, p.1),
    ensures
        reachable(g, p, p),
{
    let w = seq![p];
    assert(is_path(g, w));
    assert(w.last() == p);
}

proof fn lemma_reachable_step(g: Grid, from: (int, int), q: (int, int), c: (int, int))
    requires
        reachable(g, from, q),
        adjacent(q, c),
        in_grid(c.0, c.1),
        g[c.0][c.1] == Ball::Empty,
    ensures
        reachable(g, from, c),
{
    let p = choose|p: Seq<(int, int)>| is_path(g, p) && p[0] == from && p.last() == q;
    let w = p.push(c);
    assert forall|k: int| 0 <= k < w.len() - 1 implies adjacent(#[trigger] w[k], w[k + 1]) by {
        if k < p.len() - 1 {
            assert(w[k] == p[k] && w[k + 1] == p[k + 1]);
        } else {
            assert(w[k] == q);
        }
    }
    assert forall|k: int| 0 <= k < w.len() implies in_grid(#[trigger] w[k].0, w[k].1) by {
        if k < p.len() {
            assert(w[k] == p[k]);
        }
    }
    assert forall|k: int| 1 <= k < w.len() implies g[#[trigger] w[k].0][w[k].1] == Ball::Empty by {
        if k < p.len() {
            assert(w[k] == p[k]);
        }
    }
    assert(is_path(g, w) && w[0] == from && w.last() == c);
}

/// Reachability is symmetric between empty cells: walks can be reversed.
pub proof fn lemma_reachable_symmetric(g: Grid, a: (int, int), b: (int, int))
    requires
        in_grid(a.0, a.1),
        in_grid(b.0, b.1),
        g[a.0][a.1] == Ball::Empty,
        g[b.0][b.1] == Ball::Empty,
    ensures
        reachable(g, a, b) == reachable(g, b, a),
{
    if reachable(g, a, b) {
        lemma_reverse_path(g, a, b);
    }
    if reachable(g, b, a) {
        lemma_reverse_path(g, b, a);
    }
}

proof fn lemma_reverse_path(g: Grid, a: (int, int), b: (int, int))
    requires
        reachable(g, a, b),
        g[a.0][a.1] == Ball::Empty,
    ensures
        reachable(g, b, a),
{
    let p = choose|p: Seq<(int, int)>| is_path(g, p) && p[0] == a && p.last() == b;
    let n = p.len();
    let w = Seq::new(n, |k: int| p[n - 1 - k]);
    assert forall|k: int| 0 <= k < w.len() - 1 implies adjacent(#[trigger] w[k], w[k + 1]) by {
        assert(adjacent(p[n - 2 - k], p[n - 2 - k + 1]));
    }
    assert forall|k: int| 0 <= k < w.len() implies in_grid(#[trigger] w[k].0, w[k].1) by {
        assert(in_grid(p[n - 1 - k].0, p[n - 1 - k].1));
    }
    assert forall|k: int| 1 <= k < w.len() implies g[#[trigger] w[k].0][w[k].1] == Ball::Empty by {
        if n - 1 - k >= 1 {
            assert(g[p[n - 1 - k].0][p[n - 1 - k].1] == Ball::Empty);
        }
    }
    assert(is_path(g, w) && w[0] == b && w.last() == a);
}

/// In a closed marking that holds `from`, every cell reachable from `from` is
/// marked.
proof fn lemma_closed_complete(g: Grid, t: Mask, from: (int, int), to: (int, int))
    requires
        closed(g, t),
        in_grid(from.0, from.1),
        t[from.0][from.1],
        reachable(g, from, to),
    ensures
        t[to.0][to.1],
{
    let p = choose|p: Seq<(int, int)>| is_path(g, p) && p[0] == from && p.last() == to;
    lemma_walk_marked(g, t, p, p.len() - 1);
}

proof fn lemma_walk_marked(g: Grid, t: Mask, p: Seq<(int, int)>, k: int)
    requires
        closed(g, t),
        is_path(g, p),
        t[p[0].0][p[0].1],
        0 <= k < p.len(),
    ensures
        t[p[k].0][p[k].1],
    decreases k,
{
    if k > 0 {
        lemma_walk_marked(g, t, p, k - 1);
        assert(adjacent(p[k - 1], p[k]));
        assert(in_grid(p[k].0, p[k].1));
        assert(g[p[k].0][p[k].1] == Ball::Empty);
        assert(neighbour_marked(t, p[k].0, p[k].1));
    }
}

/// Whether a cell beside `(i, j)` is marked.
fn has_marked_neighbour(t: &Mask, i: usize, j: usize) -> (r: bool)
    requires
        i < 9,
        j < 9,
    ensures
        r == neighbour_marked(*t, i as int, j as int),
{
    (i > 0 && t[i - 1][j]) || (i < 8 && t[i + 1][j]) || (j > 0 && t[i][j - 1]) || (j < 8
        && t[i][j + 1])
}

/// One sweep over the board that marks each empty cell with a marked
/// neighbour; returns how many cells it newly marked.
fn spread(g: &Grid, t: &mut Mask, Ghost(from): Ghost<(int, int)>) -> (added: usize)
    requires
        sound(*g, *old(t), from),
    ensures
        sound(*g, *final(t), from),
        forall|a: int, b: int| in_grid(a, b) && old(t)[a][b] ==> #[trigger] final(t)[a][b],
        count_marked(*final(t)) == count_marked(*old(t)) + added,
        added == 0 ==> *final(t) == *old(t),
        added == 0 ==> closed(*g, *final(t)),
{
    let ghost t0 = *t;
    let mut added: usize = 0;
    let mut i: usize = 0;
    while i < 9
        invariant
            i <= 9,
            sound(*g, *t, from),
            forall|a: int, b: int| in_grid(a, b) && t0[a][b] ==> #[trigger] t[a][b],
            count_marked(*t) == count_marked(t0) + added,
            added == 0 ==> *t == t0,
            added == 0 ==> forall|a: int, b: int|
                0 <= a < i && 0 <= b < 9 && g[a][b] == Ball::Empty && neighbour_marked(*t, a, b)
                    ==> #[trigger] t[a][b],
        decreases 9 - i,
    {
        let mut j: usize = 0;
        while j < 9
            invariant
                i < 9,
                j <= 9,
                sound(*g, *t, from),
                forall|a: int, b: int| in_grid(a, b) && t0[a][b] ==> #[trigger] t[a][b],
                count_marked(*t) == count_marked(t0) + added,
                added == 0 ==> *t == t0,
                added == 0 ==> forall|a: int, b: int|
                    ((0 <= a < i && 0 <= b < 9) || (a == i && 0 <= b < j)) && g[a][b] == Ball::Empty
                        && neighbour_marked(*t, a, b) ==> #[trigger] t[a][b],
            decreases 9 - j,
        {
            if g[i][j] == Ball::Empty && !t[i][j] && has_marked_neighbour(t, i, j) {
                let ghost before = *t;
                proof {
                    let q: (int, int) = if i > 0 && t[i - 1][j as int] {
                        (i - 1, j as int)
                    } else if i < 8 && t[i + 1][j as int] {
                        (i + 1, j as int)
                    } else if j > 0 && t[i as int][j - 1] {
                        (i as int, j - 1)
                    } else {
                        (i as int, j + 1)
                    };
                    assert(t[q.0][q.1]);
                    lemma_reachable_step(*g, from, q, (i as int, j as int));
                }
                t[i][j] = true;
                proof {
                    lemma_count_update(marked_at(*t), marked_at(before), i as int, j as int);
                    lemma_count_bound(marked_at(*t));
                }
                added = added + 1;
            }
            j = j + 1;
        }
        i = i + 1;
    }
    added
}

/// Whether `(to_x, to_y)` can be reached from `(from_x, from_y)` through
/// empty cells, stepping between cells that share a side. The starting cell
/// itself need not be empty; a start off the board reaches nothing.
pub fn find_path(g: Grid, from_x: usize, from_y: usize, to_x: usize, to_y: usize) -> (r: bool)
    requires
        to_x < 9,
        to_y < 9,
    ensures
        r == reachable(g, (from_x as int, from_y as int), (to_x as int, to_y as int)),
{
    let ghost from = (from_x as int, from_y as int);
    let mut t: Mask = [[false; 9]; 9];
    assert(sound(g, t, from));
    if from_x < 9 && from_y < 9 {
        t[from_x][from_y] = true;
        proof {
            lemma_reachable_reflexive(g, from);
            assert(sound(g, t, from));
        }
    }
    loop
        invariant
            to_x < 9,
            to_y < 9,
            from == (from_x as int, from_y as int),
            sound(g, t, from),
            from_x < 9 && from_y < 9 ==> t[from_x as int][from_y as int],
        ensures
            t[to_x as int][to_y as int] == reachable(g, from, (to_x as int, to_y as int)),
        decreases 81 - count_marked(t),
    {
        let ghost before = t;
        let added = spread(&g, &mut t, Ghost(from));
        proof {
            lemma_count_bound(marked_at(t));
            if from_x < 9 && from_y < 9 {
                assert(before[from_x as int][from_y as int]);
                assert(t[from_x as int][from_y as int]);
            }
        }
        if added == 0 {
            proof {
                if reachable(g, from, (to_x as int, to_y as int)) {
                    let p = choose|p: Seq<(int, int)>|
                        is_path(g, p) && p[0] == from && p.last() == (to_x as int, to_y as int);
                    assert(in_grid(p[0].0, p[0].1));
                    lemma_closed_complete(g, t, from, (to_x as int, to_y as int));
                }
                if t[to_x as int][to_y as int] {
                    assert(in_grid(to_x as int, to_y as int));
                    assert(reachable(g, from, (to_x as int, to_y as int)));
                }
            }
            break;
        }
    }
    t[to_x][to_y]
}

} // verus!

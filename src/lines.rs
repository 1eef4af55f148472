use vstd::prelude::*;
use crate::board::{Ball, Grid, Mask, in_grid, count_marked, count_in_cols, count_in_col, marked_at, lemma_count_bound, lemma_col_mono, lemma_cols_mono};

verus! {

/// Five cells starting at `(a, b)` and stepping by `(da, db)` all lie on the
/// board and hold the same colour.
pub open spec fn window_at(g: Grid, a: int, b: int, da: int, db: int) -> bool {
    &&& in_grid(a, b)
    &&& in_grid(a + 4 * da, b + 4 * db)
    &&& g[a][b] != Ball::Empty
    &&& g[a + da][b + db] == g[a][b]
    &&& g[a + 2 * da][b + 2 * db] == g[a][b]
    &&& g[a + 3 * da][b + 3 * db] == g[a][b]
    &&& g[a + 4 * da][b + 4 * db] == g[a][b]
}

/// `(a, b)` belongs to a window of five along direction `(da, db)`.
pub open spec fn run_through(g: Grid, a: int, b: int, da: int, db: int) -> bool {
    ||| window_at(g, a, b, da, db)
    ||| window_at(g, a - da, b - db, da, db)
    ||| window_at(g, a - 2 * da, b - 2 * db, da, db)
    ||| window_at(g, a - 3 * da, b - 3 * db, da, db)
    ||| window_at(g, a - 4 * da, b - 4 * db, da, db)
}

/// `(a, b)` belongs to a run of five or more in one of the four orientations.
pub open spec fn in_run(g: Grid, a: int, b: int) -> bool {
    ||| run_through(g, a, b, 0, 1)
    ||| run_through(g, a, b, 1, 0)
    ||| run_through(g, a, b, 1, 1)
    ||| run_through(g, a, b, 1, -1)
}

/// `t` marks exactly the cells of `g` that lie in a run.
pub open spec fn is_run_mask(g: Grid, t: Mask) -> bool {
    forall|a: int, b: int| in_grid(a, b) ==> #[trigger] t[a][b] == in_run(g, a, b)
}

/// The board after clearing every cell that `t` marks.
pub open spec fn cleared(g: Grid, t: Mask, r: Grid) -> bool {
    forall|a: int, b: int|
        in_grid(a, b) ==> #[trigger] r[a][b] == if t[a][b] { Ball::Empty } else { g[a][b] }
}

fn window_from(g: &Grid, a: i32, b: i32, da: i32, db: i32) -> (r: bool)
    requires
        -8 <= a <= 12,
        -8 <= b <= 12,
        -1 <= da <= 1,
        -1 <= db <= 1,
    ensures
        r == window_at(*g, a as int, b as int, da as int, db as int),
{
    let ea = a + 4 * da;
    let eb = b + 4 * db;
    if a < 0 || a > 8 || b < 0 || b > 8 || ea < 0 || ea > 8 || eb < 0 || eb > 8 {
        return false;
    }
    let c = g[a as usize][b as usize];
    c != Ball::Empty && g[(a + da) as usize][(b + db) as usize] == c && g[(a + 2 * da) as usize][(b
        + 2 * db) as usize] == c && g[(a + 3 * da) as usize][(b + 3 * db) as usize] == c
        && g[ea as usize][eb as usize] == c
}

fn run_along(g: &Grid, i: usize, j: usize, da: i32, db: i32) -> (r: bool)
    requires
        i < 9,
        j < 9,
        -1 <= da <= 1,
        -1 <= db <= 1,
    ensures
        r == run_through(*g, i as int, j as int, da as int, db as int),
{
    let a = i as i32;
    let b = j as i32;
    window_from(g, a, b, da, db) || window_from(g, a - da, b - db, da, db) || window_from(
        g,
        a - 2 * da,
        b - 2 * db,
        da,
        db,
    ) || window_from(g, a - 3 * da, b - 3 * db, da, db) || window_from(
        g,
        a - 4 * da,
        b - 4 * db,
        da,
        db,
    )
}

/// Whether cell `(i, j)` lies in a run of five or more.
pub fn in_completed_line(g: &Grid, i: usize, j: usize) -> (r: bool)
    requires
        i < 9,
        j < 9,
    ensures
        r == in_run(*g, i as int, j as int),
{
    run_along(g, i, j, 0, 1) || run_along(g, i, j, 1, 0) || run_along(g, i, j, 1, 1) || run_along(
        g,
        i,
        j,
        1,
        -1,
    )
}

/// Marks every cell that belongs to a run of five or more balls of one colour,
/// horizontally, vertically or along either diagonal.
pub fn ready_to_remove(g: Grid) -> (t: Mask)
    ensures
        is_run_mask(g, t),
{
    let mut t: Mask = [[false; 9]; 9];
    let mut i: usize = 0;
    while i < 9
        invariant
            i <= 9,
            forall|a: int, b: int| 0 <= a < i && 0 <= b < 9 ==> #[trigger] t[a][b] == in_run(g, a, b),
        decreases 9 - i,
    {
        let mut j: usize = 0;
        while j < 9
            invariant
                i < 9,
                j <= 9,
                forall|a: int, b: int|
                    ((0 <= a < i && 0 <= b < 9) || (a == i && 0 <= b < j)) ==> #[trigger] t[a][b]
                        == in_run(g, a, b),
            decreases 9 - j,
        {
            let m = in_completed_line(&g, i, j);
            t[i][j] = m;
            j = j + 1;
        }
        i = i + 1;
    }
    t
}

/// Number of marked cells.
pub fn total_count_to_remove(t: Mask) -> (r: u16)
    ensures
        r == count_marked(t),
{
    let mut n: u16 = 0;
    let mut i: usize = 0;
    proof {
        lemma_count_bound(marked_at(t));
    }
    while i < 9
        invariant
            i <= 9,
            n == count_in_cols(marked_at(t), i as int),
            count_marked(t) <= 81,
        decreases 9 - i,
    {
        let mut j: usize = 0;
        proof {
            lemma_cols_mono(marked_at(t), i as int + 1, 9);
        }
        while j < 9
            invariant
                i < 9,
                j <= 9,
                n == count_in_cols(marked_at(t), i as int) + count_in_col(marked_at(t), i as int, j as int),
                count_in_cols(marked_at(t), i as int) + count_in_col(marked_at(t), i as int, 9) <= 81,
            decreases 9 - j,
        {
            proof {
                lemma_col_mono(marked_at(t), i as int, j as int + 1, 9);
            }
            if t[i][j] {
                n = n + 1;
            }
            j = j + 1;
        }
        i = i + 1;
    }
    n
}

/// Empties every marked cell and leaves the others as they were.
pub fn remove_comleted_ball_lines(g: Grid, t: Mask) -> (r: Grid)
    ensures
        cleared(g, t, r),
{
    let mut r = g;
    let mut i: usize = 0;
    while i < 9
        invariant
            i <= 9,
            forall|a: int, b: int|
                in_grid(a, b) ==> #[trigger] r[a][b] == if a < i && t[a][b] { Ball::Empty } else { g[a][b] },
        decreases 9 - i,
    {
        let mut j: usize = 0;
        while j < 9
            invariant
                i < 9,
                j <= 9,
                forall|a: int, b: int|
                    in_grid(a, b) ==> #[trigger] r[a][b] == if (a < i || (a == i && b < j)) && t[a][b] {
                        Ball::Empty
                    } else {
                        g[a][b]
                    },
            decreases 9 - j,
        {
            if t[i][j] {
                r[i][j] = Ball::Empty;
            }
            j = j + 1;
        }
        i = i + 1;
    }
    r
}

/// A board with no ball has no run: its removal mask is empty.
pub proof fn lemma_no_runs_on_empty_board(g: Grid, t: Mask)
    requires
        forall|a: int, b: int| in_grid(a, b) ==> #[trigger] g[a][b] == Ball::Empty,
        is_run_mask(g, t),
    ensures
        forall|a: int, b: int| in_grid(a, b) ==> !#[trigger] t[a][b],
        count_marked(t) == 0,
{
    assert forall|a: int, b: int| in_grid(a, b) implies !#[trigger] t[a][b] by {
        assert(t[a][b] == in_run(g, a, b));
    }
    lemma_no_marks_count_zero(t);
}

proof fn lemma_no_marks_count_zero(t: Mask)
    requires
        forall|a: int, b: int| in_grid(a, b) ==> !#[trigger] t[a][b],
    ensures
        count_marked(t) == 0,
{
    crate::board::lemma_count_ext(marked_at(t), |a: int, b: int| false);
    crate::board::lemma_count_zero_none();
}

/// The removal mask is determined by the board: two masks computed from the
/// same board are identical.
pub proof fn lemma_run_mask_unique(g: Grid, t1: Mask, t2: Mask)
    requires
        is_run_mask(g, t1),
        is_run_mask(g, t2),
    ensures
        t1 == t2,
{
    assert forall|a: int| 0 <= a < 9 implies #[trigger] t1[a] == t2[a] by {
        assert forall|b: int| 0 <= b < 9 implies t1[a][b] == t2[a][b] by {
            assert(t1[a][b] == in_run(g, a, b));
            assert(t2[a][b] == in_run(g, a, b));
        }
        assert(t1[a] =~= t2[a]);
    }
    assert(t1 =~= t2);
}

/// Clearing empties every marked cell and changes no unmarked cell.
pub proof fn lemma_clear_effect(g: Grid, t: Mask, r: Grid)
    requires
        cleared(g, t, r),
    ensures
        forall|a: int, b: int| in_grid(a, b) && t[a][b] ==> #[trigger] r[a][b] == Ball::Empty,
        forall|a: int, b: int| in_grid(a, b) && !t[a][b] ==> #[trigger] r[a][b] == g[a][b],
{
}

} // verus!

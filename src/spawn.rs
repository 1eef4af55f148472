use vstd::prelude::*;
use rand::Rng;
use rand::seq::SliceRandom;
use crate::board::{Ball, Grid, in_grid, spec_count_empty, is_full, empty_at, count_in_cols, count_in_col, lemma_count_update, lemma_count_bound, lemma_cols_mono, lemma_col_mono, lemma_full_iff_no_empty};

verus! {

/// Relies on rand's `Rng::gen_range` on `low..=high`, drawn from the
/// thread-local generator: a value inside the inclusive range (the call
/// panics only on an empty range).
#[verifier::external_body]
fn random_between(low: u8, high: u8) -> (r: u8)
    requires
        low <= high,
    ensures
        low <= r <= high,
{
    rand::thread_rng().gen_range(low..=high)
}

/// Relies on rand's `SliceRandom::choose`, drawn from the thread-local
/// generator: one element of a non-empty slice.
#[verifier::external_body]
fn choose_cell(cells: &Vec<(usize, usize)>) -> (r: (usize, usize))
    requires
        cells.len() > 0,
    ensures
        cells@.contains(r),
{
    *cells.choose(&mut rand::thread_rng()).unwrap()
}

/// The colour numbered `n` (1 to 7); any other number gives `Empty`.
pub open spec fn spec_ball_of_number(n: u8) -> Ball {
    if n == 1 {
        Ball::Red
    } else if n == 2 {
        Ball::Green
    } else if n == 3 {
        Ball::Blue
    } else if n == 4 {
        Ball::Magenta
    } else if n == 5 {
        Ball::Yellow
    } else if n == 6 {
        Ball::Cyan
    } else if n == 7 {
        Ball::Brown
    } else {
        Ball::Empty
    }
}

/// The colour numbered `n` (1 to 7); any other number gives `Empty`.
pub fn ball_of_number(n: u8) -> (r: Ball)
    ensures
        r == spec_ball_of_number(n),
{
    match n {
        1 => Ball::Red,
        2 => Ball::Green,
        3 => Ball::Blue,
        4 => Ball::Magenta,
        5 => Ball::Yellow,
        6 => Ball::Cyan,
        7 => Ball::Brown,
        _ => Ball::Empty,
    }
}

/// A ball of a random colour; never `Empty`.
pub fn rand_ball() -> (r: Ball)
    ensures
        r != Ball::Empty,
{
    let n = random_between(1, 7);
    ball_of_number(n)
}

/// Every ball of `before` is still in place in `after`.
pub open spec fn keeps_occupied(before: Grid, after: Grid) -> bool {
    forall|a: int, b: int|
        in_grid(a, b) && before[a][b] != Ball::Empty ==> #[trigger] after[a][b] == before[a][b]
}

pub open spec fn min(x: int, y: int) -> int {
    if x <= y { x } else { y }
}

/// `after` is `before` with `n` balls added, or as many as there was room for.
pub open spec fn spawned(before: Grid, after: Grid, n: int) -> bool {
    &&& keeps_occupied(before, after)
    &&& spec_count_empty(after) + min(n, spec_count_empty(before) as int) == spec_count_empty(before)
}

/// The coordinates of the empty cells, column by column.
pub fn empty_cells(grid: &Grid) -> (cells: Vec<(usize, usize)>)
    ensures
        cells.len() == spec_count_empty(*grid),
        forall|k: int|
            0 <= k < cells.len() ==> (#[trigger] cells@[k]).0 < 9 && cells@[k].1 < 9
                && grid[cells@[k].0 as int][cells@[k].1 as int] == Ball::Empty,
{
    let mut cells: Vec<(usize, usize)> = Vec::new();
    let mut i: usize = 0;
    while i < 9
        invariant
            i <= 9,
            cells.len() == count_in_cols(empty_at(*grid), i as int),
            forall|k: int|
                0 <= k < cells.len() ==> (#[trigger] cells@[k]).0 < 9 && cells@[k].1 < 9
                    && grid[cells@[k].0 as int][cells@[k].1 as int] == Ball::Empty,
        decreases 9 - i,
    {
        let mut j: usize = 0;
        proof {
            lemma_count_bound(empty_at(*grid));
            lemma_cols_mono(empty_at(*grid), i as int + 1, 9);
        }
        while j < 9
            invariant
                i < 9,
                j <= 9,
                cells.len() == count_in_cols(empty_at(*grid), i as int) + count_in_col(empty_at(*grid), i as int, j as int),
                count_in_cols(empty_at(*grid), i as int) + count_in_col(empty_at(*grid), i as int, 9) <= 81,
                forall|k: int|
                    0 <= k < cells.len() ==> (#[trigger] cells@[k]).0 < 9 && cells@[k].1 < 9
                        && grid[cells@[k].0 as int][cells@[k].1 as int] == Ball::Empty,
            decreases 9 - j,
        {
            proof {
                lemma_col_mono(empty_at(*grid), i as int, j as int + 1, 9);
            }
            if grid[i][j] == Ball::Empty {
                cells.push((i, j));
            }
            j = j + 1;
        }
        i = i + 1;
    }
    cells
}

/// Puts a ball of random colour on a random empty cell; a full board is
/// returned unchanged.
pub fn add_ball(mut grid: Grid) -> (r: Grid)
    ensures
        spawned(grid, r, 1),
        spec_count_empty(grid) == 0 ==> r == grid,
{
    let ghost before = grid;
    let cells = empty_cells(&grid);
    if cells.len() == 0 {
        return grid;
    }
    let (x, y) = choose_cell(&cells);
    proof {
        let k = choose|k: int| 0 <= k < cells.len() && cells@[k] == (x, y);
        assert(cells@[k].0 < 9 && cells@[k].1 < 9);
    }
    let ball = rand_ball();
    grid[x][y] = ball;
    proof {
        lemma_count_update(empty_at(before), empty_at(grid), x as int, y as int);
    }
    grid
}

/// Adds `count` balls one after another, each on a random empty cell, stopping
/// silently once the board is full.
pub fn add_balls(mut grid: Grid, count: u16) -> (r: Grid)
    ensures
        spawned(grid, r, count as int),
{
    let ghost before = grid;
    let mut n: u16 = 0;
    while n < count
        invariant
            n <= count,
            spawned(before, grid, n as int),
        decreases count - n,
    {
        let ghost mid = grid;
        grid = add_ball(grid);
        assert(keeps_occupied(before, grid)) by {
            assert forall|a: int, b: int|
                in_grid(a, b) && before[a][b] != Ball::Empty implies #[trigger] grid[a][b] == before[a][b] by {
                assert(mid[a][b] == before[a][b]);
            }
        }
        n = n + 1;
    }
    grid
}

/// Once no cell is empty the board is full, and spawning more balls leaves it
/// as it is.
pub proof fn lemma_spawn_on_full_board(before: Grid, after: Grid, n: int)
    requires
        spec_count_empty(before) == 0,
        spawned(before, after, n),
    ensures
        is_full(before),
        after == before,
{
    lemma_full_iff_no_empty(before);
    assert forall|a: int| 0 <= a < 9 implies #[trigger] after[a] == before[a] by {
        assert forall|b: int| 0 <= b < 9 implies after[a][b] == before[a][b] by {
            assert(in_grid(a, b));
        }
        assert(after[a] =~= before[a]);
    }
    assert(after =~= before);
}

} // verus!

use vstd::prelude::*;

verus! {

/// Side length of the square board.
pub const SIZE: usize = 9;

/// A cell of the board: one of seven colours, or `Empty`.
#[derive(Copy, Clone, PartialEq, Eq, Structural, Debug)]
pub enum Ball {
    Red,
    Green,
    Blue,
    Magenta,
    Yellow,
    Cyan,
    Brown,
    Empty,
}

/// The board, indexed as `grid[column][row]`.
pub type Grid = [[Ball; 9]; 9];

/// A 9x9 marking of cells (removal or reachability).
pub type Mask = [[bool; 9]; 9];

pub open spec fn in_grid(a: int, b: int) -> bool {
    0 <= a < 9 && 0 <= b < 9
}

/// Number of cells `(i, k)` with `k < n` satisfying `f`.
pub open spec fn count_in_col(f: spec_fn(int, int) -> bool, i: int, n: int) -> nat
    decreases n,
{
    if n <= 0 {
        0
    } else {
        count_in_col(f, i, n - 1) + if f(i, n - 1) { 1nat } else { 0nat }
    }
}

/// Number of cells `(k, j)` with `k < m` satisfying `f`.
pub open spec fn count_in_cols(f: spec_fn(int, int) -> bool, m: int) -> nat
    decreases m,
{
    if m <= 0 {
        0
    } else {
        count_in_cols(f, m - 1) + count_in_col(f, m - 1, 9)
    }
}

/// Number of cells of the board satisfying `f`.
pub open spec fn count_cells(f: spec_fn(int, int) -> bool) -> nat {
    count_in_cols(f, 9)
}

pub open spec fn empty_at(g: Grid) -> spec_fn(int, int) -> bool {
    |a: int, b: int| g[a][b] == Ball::Empty
}

pub open spec fn occupied_at(g: Grid) -> spec_fn(int, int) -> bool {
    |a: int, b: int| g[a][b] != Ball::Empty
}

pub open spec fn marked_at(t: Mask) -> spec_fn(int, int) -> bool {
    |a: int, b: int| t[a][b]
}

/// Number of empty cells.
pub open spec fn spec_count_empty(g: Grid) -> nat {
    count_cells(empty_at(g))
}

/// Number of occupied cells.
pub open spec fn count_occupied(g: Grid) -> nat {
    count_cells(occupied_at(g))
}

/// Number of marked cells.
pub open spec fn count_marked(t: Mask) -> nat {
    count_cells(marked_at(t))
}

pub open spec fn is_full(g: Grid) -> bool {
    forall|a: int, b: int| in_grid(a, b) ==> g[a][b] != Ball::Empty
}

proof fn lemma_col_ext(f: spec_fn(int, int) -> bool, h: spec_fn(int, int) -> bool, i: int, n: int)
    requires
        0 <= n <= 9,
        forall|b: int| 0 <= b < n ==> #[trigger] f(i, b) == h(i, b),
    ensures
        count_in_col(f, i, n) == count_in_col(h, i, n),
    decreases n,
{
    if n > 0 {
        lemma_col_ext(f, h, i, n - 1);
    }
}

proof fn lemma_cols_ext(f: spec_fn(int, int) -> bool, h: spec_fn(int, int) -> bool, m: int)
    requires
        0 <= m <= 9,
        forall|a: int, b: int| 0 <= a < m && 0 <= b < 9 ==> #[trigger] f(a, b) == h(a, b),
    ensures
        count_in_cols(f, m) == count_in_cols(h, m),
    decreases m,
{
    if m > 0 {
        lemma_cols_ext(f, h, m - 1);
        lemma_col_ext(f, h, m - 1, 9);
    }
}

/// Counts of predicates that agree on the board are equal.
pub proof fn lemma_count_ext(f: spec_fn(int, int) -> bool, h: spec_fn(int, int) -> bool)
    requires
        forall|a: int, b: int| in_grid(a, b) ==> #[trigger] f(a, b) == h(a, b),
    ensures
        count_cells(f) == count_cells(h),
{
    lemma_cols_ext(f, h, 9);
}

proof fn lemma_col_split(f: spec_fn(int, int) -> bool, h: spec_fn(int, int) -> bool, i: int, n: int)
    requires
        0 <= n <= 9,
        forall|b: int| 0 <= b < n ==> #[trigger] f(i, b) != h(i, b),
    ensures
        count_in_col(f, i, n) + count_in_col(h, i, n) == n,
    decreases n,
{
    if n > 0 {
        lemma_col_split(f, h, i, n - 1);
    }
}

proof fn lemma_cols_split(f: spec_fn(int, int) -> bool, h: spec_fn(int, int) -> bool, m: int)
    requires
        0 <= m <= 9,
        forall|a: int, b: int| 0 <= a < m && 0 <= b < 9 ==> #[trigger] f(a, b) != h(a, b),
    ensures
        count_in_cols(f, m) + count_in_cols(h, m) == 9 * m,
    decreases m,
{
    if m > 0 {
        lemma_cols_split(f, h, m - 1);
        lemma_col_split(f, h, m - 1, 9);
    }
}

/// A predicate and its negation together count every cell once.
pub proof fn lemma_count_complement(f: spec_fn(int, int) -> bool, h: spec_fn(int, int) -> bool)
    requires
        forall|a: int, b: int| in_grid(a, b) ==> #[trigger] f(a, b) != h(a, b),
    ensures
        count_cells(f) + count_cells(h) == 81,
{
    lemma_cols_split(f, h, 9);
}

/// No more cells than the board has.
pub proof fn lemma_count_bound(f: spec_fn(int, int) -> bool)
    ensures
        count_cells(f) <= 81,
{
    let h = |a: int, b: int| !f(a, b);
    lemma_count_complement(f, h);
}

proof fn lemma_col_zero(f: spec_fn(int, int) -> bool, i: int, n: int)
    requires
        0 <= n <= 9,
        count_in_col(f, i, n) == 0,
    ensures
        forall|b: int| 0 <= b < n ==> !#[trigger] f(i, b),
    decreases n,
{
    if n > 0 {
        lemma_col_zero(f, i, n - 1);
    }
}

proof fn lemma_cols_zero(f: spec_fn(int, int) -> bool, m: int)
    requires
        0 <= m <= 9,
        count_in_cols(f, m) == 0,
    ensures
        forall|a: int, b: int| 0 <= a < m && 0 <= b < 9 ==> !#[trigger] f(a, b),
    decreases m,
{
    if m > 0 {
        lemma_cols_zero(f, m - 1);
        lemma_col_zero(f, m - 1, 9);
    }
}

/// A count of zero means that no cell satisfies the predicate.
pub proof fn lemma_count_zero(f: spec_fn(int, int) -> bool)
    requires
        count_cells(f) == 0,
    ensures
        forall|a: int, b: int| in_grid(a, b) ==> !#[trigger] f(a, b),
{
    lemma_cols_zero(f, 9);
}

proof fn lemma_col_update(f: spec_fn(int, int) -> bool, h: spec_fn(int, int) -> bool, i: int, n: int, b0: int)
    requires
        0 <= n <= 9,
        0 <= b0 < 9,
        forall|b: int| 0 <= b < n && b != b0 ==> #[trigger] f(i, b) == h(i, b),
        f(i, b0),
        !h(i, b0),
    ensures
        count_in_col(f, i, n) == count_in_col(h, i, n) + if b0 < n { 1nat } else { 0nat },
    decreases n,
{
    if n > 0 {
        lemma_col_update(f, h, i, n - 1, b0);
    }
}

proof fn lemma_cols_update(f: spec_fn(int, int) -> bool, h: spec_fn(int, int) -> bool, m: int, a0: int, b0: int)
    requires
        0 <= m <= 9,
        in_grid(a0, b0),
        forall|a: int, b: int| 0 <= a < m && 0 <= b < 9 && !(a == a0 && b == b0) ==> #[trigger] f(a, b) == h(a, b),
        f(a0, b0),
        !h(a0, b0),
    ensures
        count_in_cols(f, m) == count_in_cols(h, m) + if a0 < m { 1nat } else { 0nat },
    decreases m,
{
    if m > 0 {
        lemma_cols_update(f, h, m - 1, a0, b0);
        if m - 1 == a0 {
            lemma_col_update(f, h, a0, 9, b0);
        } else {
            lemma_col_ext(f, h, m - 1, 9);
        }
    }
}

/// Two predicates that differ only at one cell, where the first holds and the
/// second does not, differ in count by one.
pub proof fn lemma_count_update(f: spec_fn(int, int) -> bool, h: spec_fn(int, int) -> bool, a0: int, b0: int)
    requires
        in_grid(a0, b0),
        forall|a: int, b: int| in_grid(a, b) && !(a == a0 && b == b0) ==> #[trigger] f(a, b) == h(a, b),
        f(a0, b0),
        !h(a0, b0),
    ensures
        count_cells(f) == count_cells(h) + 1,
{
    lemma_cols_update(f, h, 9, a0, b0);
}

/// Every cell is either empty or occupied: the two counts add up to the
/// number of cells.
pub proof fn lemma_empty_plus_occupied(g: Grid)
    ensures
        spec_count_empty(g) + count_occupied(g) == 81,
{
    lemma_count_complement(empty_at(g), occupied_at(g));
}

/// The board is full exactly when no cell is empty.
pub proof fn lemma_full_iff_no_empty(g: Grid)
    ensures
        is_full(g) <==> spec_count_empty(g) == 0,
{
    if spec_count_empty(g) == 0 {
        lemma_count_zero(empty_at(g));
        assert forall|a: int, b: int| in_grid(a, b) implies g[a][b] != Ball::Empty by {
            assert(!empty_at(g)(a, b));
        }
    }
    if is_full(g) {
        let none = |a: int, b: int| false;
        lemma_count_ext(empty_at(g), none);
        lemma_count_zero_none();
    }
}

pub proof fn lemma_count_zero_none()
    ensures
        count_cells(|a: int, b: int| false) == 0,
{
    lemma_cols_none(9);
}

proof fn lemma_cols_none(m: int)
    requires
        0 <= m <= 9,
    ensures
        count_in_cols(|a: int, b: int| false, m) == 0,
    decreases m,
{
    if m > 0 {
        lemma_cols_none(m - 1);
        lemma_col_none(m - 1, 9);
    }
}

proof fn lemma_col_none(i: int, n: int)
    requires
        0 <= n <= 9,
    ensures
        count_in_col(|a: int, b: int| false, i, n) == 0,
    decreases n,
{
    if n > 0 {
        lemma_col_none(i, n - 1);
    }
}

/// Number of empty cells of the board.
pub fn count_empty(grid: Grid) -> (r: usize)
    ensures
        r == spec_count_empty(grid),
{
    let mut n: usize = 0;
    let mut i: usize = 0;
    while i < 9
        invariant
            i <= 9,
            n == count_in_cols(empty_at(grid), i as int),
        decreases 9 - i,
    {
        let mut j: usize = 0;
        proof {
            lemma_count_bound(empty_at(grid));
            lemma_cols_mono(empty_at(grid), i as int + 1, 9);
        }
        while j < 9
            invariant
                i < 9,
                j <= 9,
                n == count_in_cols(empty_at(grid), i as int) + count_in_col(empty_at(grid), i as int, j as int),
                count_in_cols(empty_at(grid), i as int) + count_in_col(empty_at(grid), i as int, 9) <= 81,
            decreases 9 - j,
        {
            proof {
                lemma_col_mono(empty_at(grid), i as int, j as int + 1, 9);
            }
            if grid[i][j] == Ball::Empty {
                n = n + 1;
            }
            j = j + 1;
        }
        i = i + 1;
    }
    n
}

pub proof fn lemma_col_mono(f: spec_fn(int, int) -> bool, i: int, n1: int, n2: int)
    requires
        0 <= n1 <= n2,
    ensures
        count_in_col(f, i, n1) <= count_in_col(f, i, n2),
    decreases n2,
{
    if n1 < n2 {
        lemma_col_mono(f, i, n1, n2 - 1);
    }
}

pub proof fn lemma_cols_mono(f: spec_fn(int, int) -> bool, m1: int, m2: int)
    requires
        0 <= m1 <= m2,
    ensures
        count_in_cols(f, m1) <= count_in_cols(f, m2),
    decreases m2,
{
    if m1 < m2 {
        lemma_cols_mono(f, m1, m2 - 1);
    }
}

/// The game is over when no cell is empty.
pub fn is_game_over(grid: Grid) -> (r: bool)
    ensures
        r == is_full(grid),
        r == (spec_count_empty(grid) == 0),
{
    let n = count_empty(grid);
    proof {
        lemma_full_iff_no_empty(grid);
    }
    n == 0
}

} // verus!

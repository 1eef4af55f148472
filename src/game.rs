use vstd::prelude::*;
use crate::board::{Ball, Grid, Mask, in_grid, spec_count_empty, count_marked, marked_at, empty_at, occupied_at, lemma_count_zero, lemma_count_ext, lemma_count_complement, lemma_count_zero_none, is_full, is_game_over};
use crate::spawn::{add_balls, spawned};
use crate::path::{find_path, reachable};
use crate::lines::{ready_to_remove, total_count_to_remove, remove_comleted_ball_lines, is_run_mask, cleared};

verus! {

/// `r` is `g` with the ball at `(sa, sb)` carried to `(da, db)`: the source
/// ends empty and the destination holds the source's colour.
pub open spec fn moved(g: Grid, sa: int, sb: int, da: int, db: int, r: Grid) -> bool {
    forall|a: int, b: int|
        in_grid(a, b) ==> #[trigger] r[a][b] == if a == sa && b == sb {
            Ball::Empty
        } else if a == da && b == db {
            g[sa][sb]
        } else {
            g[a][b]
        }
}

/// Carries the ball at `(selected_left, selected_top)` to `(left, top)`. When
/// a coordinate is off the board or the source is empty, nothing changes.
pub fn move_ball(
    mut grid: Grid,
    selected_left: usize,
    selected_top: usize,
    left: usize,
    top: usize,
) -> (r: Grid)
    ensures
        selected_left < 9 && selected_top < 9 && left < 9 && top < 9
            && grid[selected_left as int][selected_top as int] != Ball::Empty ==> moved(
            grid,
            selected_left as int,
            selected_top as int,
            left as int,
            top as int,
            r,
        ),
        !(selected_left < 9 && selected_top < 9 && left < 9 && top < 9
            && grid[selected_left as int][selected_top as int] != Ball::Empty) ==> r == grid,
{
    if selected_left < 9 && selected_top < 9 && grid[selected_left][selected_top] != Ball::Empty
        && left < 9 && top < 9 {
        grid[left][top] = grid[selected_left][selected_top];
        grid[selected_left][selected_top] = Ball::Empty;
    }
    grid
}

/// The board and the current selection.
pub struct Game {
    pub grid: Grid,
    pub selected: Option<(usize, usize)>,
}

/// What a successful move leads to: the ball is carried, the runs it made are
/// cleared, and when it made none, three balls are spawned instead.
pub open spec fn turn_outcome(g: Grid, sa: int, sb: int, da: int, db: int, r: Grid) -> bool {
    exists|m: Grid, t: Mask|
        #![trigger moved(g, sa, sb, da, db, m), is_run_mask(m, t)]
        moved(g, sa, sb, da, db, m) && is_run_mask(m, t) && (count_marked(t) == 0 ==> spawned(
            m,
            r,
            3,
        )) && (count_marked(t) > 0 ==> cleared(m, t, r))
}

impl Game {
    /// A selection, when present, lies on the board and holds a ball.
    pub open spec fn wf(&self) -> bool {
        match self.selected {
            Some(s) => s.0 < 9 && s.1 < 9 && self.grid[s.0 as int][s.1 as int] != Ball::Empty,
            None => true,
        }
    }

    /// A fresh game: nothing selected, three balls on an otherwise empty board.
    pub fn new() -> (g: Game)
        ensures
            g.wf(),
            g.selected is None,
            spec_count_empty(g.grid) == 78,
    {
        let grid: Grid = [[Ball::Empty; 9]; 9];
        proof {
            lemma_count_ext(occupied_at(grid), |a: int, b: int| false);
            lemma_count_zero_none();
            lemma_count_complement(empty_at(grid), occupied_at(grid));
        }
        let grid = add_balls(grid, 3);
        Game { grid, selected: None }
    }

    /// Whether the board is full, which ends the game.
    pub fn is_over(&self) -> (r: bool)
        ensures
            r == is_full(self.grid),
    {
        is_game_over(self.grid)
    }

    /// Activates the cell `(col, row)`. A ball there becomes the selection. An
    /// empty cell reachable from the selected ball receives it, and the turn
    /// then clears runs or spawns three balls; returns whether a move was made.
    /// Any other activation changes nothing.
    pub fn activate(&mut self, col: usize, row: usize) -> (made_move: bool)
        requires
            old(self).wf(),
            col < 9,
            row < 9,
        ensures
            final(self).wf(),
            old(self).grid[col as int][row as int] != Ball::Empty ==> !made_move
                && final(self).grid == old(self).grid && final(self).selected == Some((col, row)),
            old(self).grid[col as int][row as int] == Ball::Empty ==> match old(self).selected {
                None => !made_move && *final(self) == *old(self),
                Some(s) => if reachable(
                    old(self).grid,
                    (s.0 as int, s.1 as int),
                    (col as int, row as int),
                ) {
                    made_move && final(self).selected is None && turn_outcome(
                        old(self).grid,
                        s.0 as int,
                        s.1 as int,
                        col as int,
                        row as int,
                        final(self).grid,
                    )
                } else {
                    !made_move && *final(self) == *old(self)
                },
            },
    {
        if self.grid[col][row] != Ball::Empty {
            self.selected = Some((col, row));
            return false;
        }
        match self.selected {
            None => false,
            Some((sc, sr)) => {
                if !find_path(self.grid, sc, sr, col, row) {
                    return false;
                }
                let ghost g0 = self.grid;
                let m = move_ball(self.grid, sc, sr, col, row);
                let t = ready_to_remove(m);
                let mut grid = m;
                if total_count_to_remove(t) == 0 {
                    grid = add_balls(grid, 3);
                    proof {
                        lemma_count_zero(marked_at(t));
                    }
                }
                let ghost spawned_grid = grid;
                grid = remove_comleted_ball_lines(grid, t);
                proof {
                    if count_marked(t) == 0 {
                        assert forall|a: int| 0 <= a < 9 implies #[trigger] grid[a] == spawned_grid[a] by {
                            assert forall|b: int| 0 <= b < 9 implies grid[a][b] == spawned_grid[a][b] by {
                                assert(!marked_at(t)(a, b));
                            }
                            assert(grid[a] =~= spawned_grid[a]);
                        }
                        assert(grid =~= spawned_grid);
                    }
                    assert(moved(g0, sc as int, sr as int, col as int, row as int, m));
                    assert(turn_outcome(g0, sc as int, sr as int, col as int, row as int, grid));
                }
                self.grid = grid;
                self.selected = None;
                true
            },
        }
    }
}

} // verus!

use color_lines::{
    add_ball, add_balls, ball_of_number, count_empty, empty_cells, find_path, in_completed_line,
    is_game_over, move_ball, rand_ball, ready_to_remove, remove_comleted_ball_lines,
    total_count_to_remove, Ball, Game, Grid, Mask,
};

fn empty_grid() -> Grid {
    [[Ball::Empty; 9]; 9]
}

fn count_occupied(g: &Grid) -> usize {
    g.iter().flatten().filter(|b| **b != Ball::Empty).count()
}

fn full_grid() -> Grid {
    let mut g = empty_grid();
    for i in 0..9 {
        for j in 0..9 {
            g[i][j] = ball_of_number(((i * 2 + j * 3) % 7 + 1) as u8);
        }
    }
    g
}

#[test]
fn empty_and_occupied_add_up() {
    let mut g = empty_grid();
    assert_eq!(count_empty(g) + count_occupied(&g), 81);
    g[3][4] = Ball::Blue;
    g[0][0] = Ball::Red;
    assert_eq!(count_empty(g), 79);
    assert_eq!(count_empty(g) + count_occupied(&g), 81);
    let f = full_grid();
    assert_eq!(count_empty(f), 0);
    assert_eq!(count_empty(f) + count_occupied(&f), 81);
}

#[test]
fn spawn_batch_takes_min_of_n_and_room() {
    let g = add_balls(empty_grid(), 3);
    assert_eq!(count_empty(g), 78);
    let mut h = full_grid();
    h[1][1] = Ball::Empty;
    h[7][2] = Ball::Empty;
    let before = h;
    let h = add_balls(h, 3);
    assert_eq!(count_empty(h), 0);
    for i in 0..9 {
        for j in 0..9 {
            if before[i][j] != Ball::Empty {
                assert_eq!(h[i][j], before[i][j]);
            }
        }
    }
    assert_eq!(count_empty(add_balls(empty_grid(), 0)), 81);
}

#[test]
fn add_ball_fills_one_empty_cell() {
    let mut g = empty_grid();
    g[2][2] = Ball::Cyan;
    let r = add_ball(g);
    assert_eq!(count_empty(r), 79);
    assert_eq!(r[2][2], Ball::Cyan);
}

#[test]
fn rand_ball_is_a_colour() {
    for _ in 0..200 {
        assert_ne!(rand_ball(), Ball::Empty);
    }
}

#[test]
fn ball_numbers() {
    assert_eq!(ball_of_number(1), Ball::Red);
    assert_eq!(ball_of_number(2), Ball::Green);
    assert_eq!(ball_of_number(3), Ball::Blue);
    assert_eq!(ball_of_number(4), Ball::Magenta);
    assert_eq!(ball_of_number(5), Ball::Yellow);
    assert_eq!(ball_of_number(6), Ball::Cyan);
    assert_eq!(ball_of_number(7), Ball::Brown);
    assert_eq!(ball_of_number(0), Ball::Empty);
    assert_eq!(ball_of_number(8), Ball::Empty);
}

#[test]
fn empty_cells_lists_each_empty_cell() {
    let mut g = full_grid();
    g[4][5] = Ball::Empty;
    g[0][8] = Ball::Empty;
    assert_eq!(empty_cells(&g), vec![(0, 8), (4, 5)]);
    assert_eq!(empty_cells(&empty_grid()).len(), 81);
}

#[test]
fn reachability_reflexive_and_symmetric() {
    let mut g = empty_grid();
    // a wall along column 4 with a gap at row 8
    for j in 0..8 {
        g[4][j] = Ball::Green;
    }
    assert!(find_path(g, 1, 1, 1, 1));
    assert!(find_path(g, 0, 0, 8, 0));
    assert!(find_path(g, 8, 0, 0, 0));
    g[4][8] = Ball::Green;
    assert!(!find_path(g, 0, 0, 8, 0));
    assert!(!find_path(g, 8, 0, 0, 0));
    assert_eq!(find_path(g, 3, 3, 0, 8), find_path(g, 0, 8, 3, 3));
}

#[test]
fn reachability_from_off_board_start() {
    let g = empty_grid();
    assert!(!find_path(g, 100, 100, 0, 0));
    assert!(!find_path(g, 9, 0, 8, 0));
}

#[test]
fn reachability_no_diagonal_steps() {
    let mut g = empty_grid();
    g[0][0] = Ball::Red;
    g[1][0] = Ball::Blue;
    g[0][1] = Ball::Blue;
    assert!(!find_path(g, 0, 0, 1, 1));
    g[1][0] = Ball::Empty;
    assert!(find_path(g, 0, 0, 1, 1));
}

#[test]
fn scenario_single_token_reaches_far_corner() {
    let mut g = empty_grid();
    g[0][0] = Ball::Magenta;
    assert!(find_path(g, 0, 0, 8, 8));
}

#[test]
fn removal_clears_marked_keeps_rest() {
    let g = full_grid();
    let mut t: Mask = [[false; 9]; 9];
    t[0][0] = true;
    t[5][6] = true;
    let r = remove_comleted_ball_lines(g, t);
    for i in 0..9 {
        for j in 0..9 {
            if t[i][j] {
                assert_eq!(r[i][j], Ball::Empty);
            } else {
                assert_eq!(r[i][j], g[i][j]);
            }
        }
    }
    assert_eq!(count_empty(r), 2);
}

#[test]
fn no_runs_on_empty_board() {
    let t = ready_to_remove(empty_grid());
    assert_eq!(t, [[false; 9]; 9]);
    assert_eq!(total_count_to_remove(t), 0);
}

#[test]
fn find_runs_twice_gives_same_mask() {
    let mut g = empty_grid();
    for k in 0..6 {
        g[k][k] = Ball::Yellow;
    }
    g[3][0] = Ball::Red;
    assert_eq!(ready_to_remove(g), ready_to_remove(g));
    assert_eq!(total_count_to_remove(ready_to_remove(g)), 6);
}

fn row_of_red(n: usize) -> Grid {
    let mut g = empty_grid();
    for c in 0..n {
        g[c][2] = Ball::Red;
    }
    g
}

#[test]
fn scenario_five_in_a_row_marked() {
    let g = row_of_red(5);
    let t = ready_to_remove(g);
    assert_eq!(total_count_to_remove(t), 5);
    for i in 0..9 {
        for j in 0..9 {
            assert_eq!(t[i][j], j == 2 && i < 5);
        }
    }
}

#[test]
fn scenario_four_in_a_row_not_marked() {
    let t = ready_to_remove(row_of_red(4));
    assert_eq!(total_count_to_remove(t), 0);
}

#[test]
fn runs_in_every_orientation() {
    let mut g = empty_grid();
    for k in 0..5 {
        g[7][k + 3] = Ball::Blue;
    }
    assert_eq!(total_count_to_remove(ready_to_remove(g)), 5);
    let mut g = empty_grid();
    for k in 0..5 {
        g[k + 4][8 - k] = Ball::Cyan;
    }
    let t = ready_to_remove(g);
    assert_eq!(total_count_to_remove(t), 5);
    assert!(t[4][8] && t[8][4]);
    assert!(in_completed_line(&g, 6, 6));
    assert!(!in_completed_line(&g, 0, 0));
    let mut g = empty_grid();
    for k in 0..7 {
        g[k][k + 1] = Ball::Brown;
    }
    assert_eq!(total_count_to_remove(ready_to_remove(g)), 7);
}

#[test]
fn mixed_colours_do_not_make_a_run() {
    let mut g = row_of_red(5);
    g[2][2] = Ball::Green;
    assert_eq!(total_count_to_remove(ready_to_remove(g)), 0);
}

#[test]
fn crossing_runs_are_unioned() {
    let mut g = empty_grid();
    for k in 0..5 {
        g[k][4] = Ball::Red;
        g[2][k + 2] = Ball::Red;
    }
    assert_eq!(total_count_to_remove(ready_to_remove(g)), 9);
}

#[test]
fn move_ball_carries_colour() {
    let mut g = empty_grid();
    g[1][2] = Ball::Blue;
    let r = move_ball(g, 1, 2, 6, 7);
    assert_eq!(r[1][2], Ball::Empty);
    assert_eq!(r[6][7], Ball::Blue);
    assert_eq!(count_empty(r), 80);
    assert_eq!(move_ball(g, 100, 100, 6, 7), g);
    assert_eq!(move_ball(g, 0, 0, 6, 7), g);
}

#[test]
fn game_over_only_when_full() {
    assert!(!is_game_over(empty_grid()));
    let mut f = full_grid();
    assert!(is_game_over(f));
    f[8][8] = Ball::Empty;
    assert!(!is_game_over(f));
}

#[test]
fn spawning_until_full_then_nothing_changes() {
    let mut g = empty_grid();
    while count_empty(g) > 0 {
        g = add_balls(g, 3);
    }
    assert!(is_game_over(g));
    assert_eq!(add_balls(g, 3), g);
    assert_eq!(add_ball(g), g);
}

#[test]
fn new_game_has_three_balls() {
    let game = Game::new();
    assert_eq!(count_empty(game.grid), 78);
    assert_eq!(game.selected, None);
    assert!(!game.is_over());
}

#[test]
fn scenario_activating_occupied_reselects() {
    let mut g = full_grid();
    g[4][4] = Ball::Empty;
    let mut game = Game { grid: g, selected: None };
    assert!(!game.activate(0, 0));
    assert_eq!(game.selected, Some((0, 0)));
    assert!(!game.activate(8, 8));
    assert_eq!(game.selected, Some((8, 8)));
    assert_eq!(game.grid, g);
}

#[test]
fn activating_empty_cell_while_idle_is_ignored() {
    let mut g = empty_grid();
    g[0][0] = Ball::Red;
    let mut game = Game { grid: g, selected: None };
    assert!(!game.activate(5, 5));
    assert_eq!(game.grid, g);
    assert_eq!(game.selected, None);
}

#[test]
fn unreachable_move_keeps_selection() {
    let mut g = empty_grid();
    g[0][0] = Ball::Red;
    g[1][0] = Ball::Green;
    g[0][1] = Ball::Green;
    g[1][1] = Ball::Green;
    let mut game = Game { grid: g, selected: Some((0, 0)) };
    assert!(!game.activate(5, 5));
    assert_eq!(game.grid, g);
    assert_eq!(game.selected, Some((0, 0)));
}

#[test]
fn scenario_move_without_run_spawns_three() {
    let mut g = empty_grid();
    g[0][0] = Ball::Red;
    g[8][8] = Ball::Blue;
    let mut game = Game { grid: g, selected: Some((0, 0)) };
    assert!(game.activate(4, 4));
    assert_eq!(game.selected, None);
    assert_eq!(game.grid[4][4], Ball::Red);
    assert_eq!(game.grid[8][8], Ball::Blue);
    assert_eq!(count_empty(game.grid), 79 - 3);
}

#[test]
fn move_completing_run_clears_it_without_spawn() {
    let mut g = row_of_red(4);
    g[4][0] = Ball::Red;
    g[8][8] = Ball::Blue;
    let mut game = Game { grid: g, selected: Some((4, 0)) };
    assert!(game.activate(4, 2));
    assert_eq!(game.selected, None);
    let mut expected = empty_grid();
    expected[8][8] = Ball::Blue;
    assert_eq!(game.grid, expected);
}

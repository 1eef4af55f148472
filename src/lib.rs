//! The engine of a 9x9 colour-lines puzzle: a grid of coloured balls, random
//! spawning, path finding over empty cells, detection and removal of runs of
//! five, and the turn sequence that ties them together.
pub mod board;
pub mod spawn;
pub mod path;
pub mod lines;
pub mod game;

pub use board::{Ball, Grid, Mask, SIZE, count_empty, is_game_over};
pub use spawn::{rand_ball, ball_of_number, add_ball, add_balls, empty_cells};
pub use path::find_path;
pub use lines::{ready_to_remove, total_count_to_remove, remove_comleted_ball_lines, in_completed_line};
pub use game::{move_ball, Game};

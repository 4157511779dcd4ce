//! The scene: the grid with its goal cell, and the test for reaching it.

use vstd::prelude::*;
use crate::player::{Player, CELL_UNITS, ONE};

verus! {

/// The grid and, where it has one, the row and column of its goal cell.
pub struct Scene {
    pub maze_data: Vec<Vec<char>>,
    pub goal: Option<(usize, usize)>,
}

/// The index of the grid cell nearest to a position along one axis: the
/// position divided by the size of a cell and rounded, halves upward.
/// Positions below zero give 0.
pub open spec fn spec_cell_index(pos: int) -> int {
    if pos < 0 {
        0
    } else {
        (2 * pos + CELL_UNITS * ONE) / (2 * CELL_UNITS * ONE)
    }
}

/// Whether the player's cell is the goal cell: the cell of its `x` is the
/// goal's column and the cell of its `y` is the goal's row.
pub open spec fn spec_check_victory(player: Player, goal: Option<(usize, usize)>) -> bool {
    match goal {
        Some((row, col)) => spec_cell_index(player.x as int) == col && spec_cell_index(
            player.y as int,
        ) == row,
        None => false,
    }
}

/// The cell index of a position that is not negative is the whole number
/// nearest to the position in cells: the position lies less than half a cell
/// above the cell's middle and at most half a cell below it.
pub proof fn lemma_cell_index_nearest(pos: int)
    requires
        pos >= 0,
    ensures
        spec_cell_index(pos) >= 0,
        (2 * spec_cell_index(pos) - 1) * (CELL_UNITS * ONE) <= 2 * pos < (2 * spec_cell_index(pos)
            + 1) * (CELL_UNITS * ONE),
{
    let size = CELL_UNITS * ONE;
    assert(size == 6553600);
    let cell = spec_cell_index(pos);
    assert(cell == (2 * pos + 6553600) / 13107200);
    assert((2 * cell - 1) * 6553600 <= 2 * pos < (2 * cell + 1) * 6553600);
}

/// The index of the grid cell nearest to a position along one axis.
pub fn cell_index(pos: i64) -> (cell: u64)
    ensures
        cell == spec_cell_index(pos as int),
{
    if pos < 0 {
        return 0;
    }
    assert(CELL_UNITS * ONE == 6553600);
    let cell_size: i128 = (CELL_UNITS as i128) * (ONE as i128);
    let cell: i128 = (2 * (pos as i128) + cell_size) / (2 * cell_size);
    cell as u64
}

/// Whether the player stands in the goal cell of the scene. A scene without
/// a goal is never won.
pub fn check_victory(player: &Player, scene: &Scene) -> (won: bool)
    ensures
        won == spec_check_victory(*player, scene.goal),
{
    match scene.goal {
        Some((goal_row, goal_col)) => {
            let player_x = cell_index(player.x);
            let player_y = cell_index(player.y);
            player_x == goal_col as u64 && player_y == goal_row as u64
        },
        None => false,
    }
}

} // verus!

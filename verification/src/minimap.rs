//! The overhead map: one tile per wall cell at a fixed scale, and a marker
//! on the player's cell.

use vstd::prelude::*;
use crate::canvas::Canvas;
use crate::framebuffer::Framebuffer;
use crate::maze::{grid_view, EMPTY, GOAL};
use crate::player::Player;
use crate::render::draw_rect;
use crate::scene::{cell_index, spec_cell_index};

verus! {

/// The column of the map's left edge on the surface.
pub const MINIMAP_X: usize = 10;

/// The row of the map's top edge on the surface.
pub const MINIMAP_Y: usize = 5;

/// The side of one cell on the map, in pixels.
pub const MINIMAP_SCALE: usize = 15;

/// The colour under the map.
pub const MINIMAP_BACKGROUND: u32 = 0x202020;

/// The colour of a wall tile.
pub const TILE_COLOR: u32 = 0xEEEEEE;

/// The colour of the player's marker.
pub const MARKER_COLOR: u32 = 0xFF0000;

/// The radius of the player's marker, in pixels.
pub const MARKER_RADIUS: usize = 3;

/// Whether a cell with this symbol is left out of the map.
pub open spec fn hidden(cell: char) -> bool {
    cell == EMPTY || cell == GOAL
}

/// The surface after the cell was drawn: untouched for an empty or a goal
/// cell, a filled square in the tile colour for any other.
pub open spec fn spec_draw_cell(canvas: Canvas, xo: int, yo: int, block: int, cell: char) -> Canvas {
    if hidden(cell) {
        canvas
    } else {
        canvas.with_current(TILE_COLOR).fill_rect(xo, yo, block, block)
    }
}

/// The surface after the first `n` cells of one grid row were drawn.
pub open spec fn spec_minimap_row(canvas: Canvas, cells: Seq<char>, row: int, n: nat) -> Canvas
    decreases n,
{
    if n == 0 {
        canvas
    } else {
        spec_draw_cell(
            spec_minimap_row(canvas, cells, row, (n - 1) as nat),
            MINIMAP_X + (n - 1) * MINIMAP_SCALE,
            MINIMAP_Y + row * MINIMAP_SCALE,
            MINIMAP_SCALE as int,
            cells[n - 1],
        )
    }
}

/// How many cells of a row are drawn: those within the first `cols`.
pub open spec fn drawn_cells(cells: Seq<char>, cols: int) -> nat {
    if cells.len() < cols {
        cells.len()
    } else if cols < 0 {
        0
    } else {
        cols as nat
    }
}

/// The surface after the first `n` rows of the grid were drawn.
pub open spec fn spec_minimap_rows(canvas: Canvas, grid: Seq<Seq<char>>, cols: int, n: nat) -> Canvas
    decreases n,
{
    if n == 0 {
        canvas
    } else {
        spec_minimap_row(
            spec_minimap_rows(canvas, grid, cols, (n - 1) as nat),
            grid[n - 1],
            n - 1,
            drawn_cells(grid[n - 1], cols),
        )
    }
}

/// The player's cell along one axis, kept inside a grid of `cells` cells.
pub open spec fn spec_marker_cell(pos: int, cells: int) -> int {
    if spec_cell_index(pos) < cells - 1 {
        spec_cell_index(pos)
    } else {
        cells - 1
    }
}

/// The surface with the map on it: the background rectangle, the tiles row
/// by row, then the marker.
pub open spec fn spec_render_minimap(canvas: Canvas, player: Player, grid: Seq<Seq<char>>) -> Canvas {
    let rows = grid.len() as int;
    let cols = grid[0].len() as int;
    let ground = canvas.with_current(MINIMAP_BACKGROUND).fill_rect(
        MINIMAP_X as int,
        MINIMAP_Y as int,
        cols * MINIMAP_SCALE,
        rows * MINIMAP_SCALE,
    );
    let tiles = spec_minimap_rows(ground, grid, cols, rows as nat);
    tiles.with_current(MARKER_COLOR).fill_circle(
        MINIMAP_X + spec_marker_cell(player.x as int, cols) * MINIMAP_SCALE,
        MINIMAP_Y + spec_marker_cell(player.y as int, rows) * MINIMAP_SCALE,
        MARKER_RADIUS as int,
    )
}

/// Draws one grid cell as a square of side `block_size` with its corner at
/// `(xo, yo)`. Empty cells and the goal cell are not drawn.
pub fn draw_cell(framebuffer: &mut Framebuffer, xo: usize, yo: usize, block_size: usize, cell: char)
    ensures
        final(framebuffer)@ == spec_draw_cell(
            old(framebuffer)@,
            xo as int,
            yo as int,
            block_size as int,
            cell,
        ),
        hidden(cell) ==> final(framebuffer)@ == old(framebuffer)@,
{
    if cell == EMPTY || cell == GOAL {
        return ;
    }
    draw_rect(framebuffer, xo, yo, block_size, block_size, TILE_COLOR);
}

/// Draws the map of the grid and the player's marker on it.
pub fn render_minimap(framebuffer: &mut Framebuffer, player: &Player, maze: &Vec<Vec<char>>)
    requires
        maze.len() > 0,
        maze[0].len() > 0,
        MINIMAP_X + maze[0].len() * MINIMAP_SCALE <= usize::MAX,
        MINIMAP_Y + maze.len() * MINIMAP_SCALE <= usize::MAX,
    ensures
        final(framebuffer)@ == spec_render_minimap(old(framebuffer)@, *player, grid_view(maze@)),
        final(framebuffer)@.wf(),
{
    let num_rows = maze.len();
    let num_cols = maze[0].len();
    let ghost grid = grid_view(maze@);
    draw_rect(
        framebuffer,
        MINIMAP_X,
        MINIMAP_Y,
        num_cols * MINIMAP_SCALE,
        num_rows * MINIMAP_SCALE,
        MINIMAP_BACKGROUND,
    );
    let ghost ground = framebuffer@;
    let mut row: usize = 0;
    while row < num_rows
        invariant
            row <= num_rows,
            num_rows == maze.len(),
            num_cols == maze[0].len(),
            grid == grid_view(maze@),
            MINIMAP_X + num_cols * MINIMAP_SCALE <= usize::MAX,
            MINIMAP_Y + num_rows * MINIMAP_SCALE <= usize::MAX,
            framebuffer@ == spec_minimap_rows(ground, grid, num_cols as int, row as nat),
        decreases num_rows - row,
    {
        let cells = &maze[row];
        let count = if cells.len() < num_cols {
            cells.len()
        } else {
            num_cols
        };
        let ghost start = framebuffer@;
        let screen_y = MINIMAP_Y + row * MINIMAP_SCALE;
        let mut col: usize = 0;
        while col < count
            invariant
                col <= count <= num_cols,
                count == drawn_cells(cells@, num_cols as int),
                row < num_rows,
                screen_y == MINIMAP_Y + row * MINIMAP_SCALE,
                MINIMAP_X + num_cols * MINIMAP_SCALE <= usize::MAX,
                framebuffer@ == spec_minimap_row(start, cells@, row as int, col as nat),
            decreases count - col,
        {
            let screen_x = MINIMAP_X + col * MINIMAP_SCALE;
            draw_cell(framebuffer, screen_x, screen_y, MINIMAP_SCALE, cells[col]);
            col += 1;
        }
        assert(grid[row as int] == cells@);
        row += 1;
    }
    let player_x = cell_index(player.x);
    let player_y = cell_index(player.y);
    let marker_x = if player_x < (num_cols - 1) as u64 {
        player_x as usize
    } else {
        num_cols - 1
    };
    let marker_y = if player_y < (num_rows - 1) as u64 {
        player_y as usize
    } else {
        num_rows - 1
    };
    framebuffer.set_current_color(MARKER_COLOR);
    framebuffer.draw_circle(
        MINIMAP_X + marker_x * MINIMAP_SCALE,
        MINIMAP_Y + marker_y * MINIMAP_SCALE,
        MARKER_RADIUS,
    );
}

/// Cells that are left out of the map never change the surface: two rows
/// that differ only in hidden cells give the same picture.
pub proof fn lemma_row_ignores_hidden(
    canvas: Canvas,
    a: Seq<char>,
    b: Seq<char>,
    row: int,
    n: nat,
)
    requires
        n <= a.len(),
        n <= b.len(),
        forall|i: int| 0 <= i < n ==> #[trigger] a[i] == b[i] || (hidden(a[i]) && hidden(b[i])),
    ensures
        spec_minimap_row(canvas, a, row, n) == spec_minimap_row(canvas, b, row, n),
    decreases n,
{
    if n > 0 {
        lemma_row_ignores_hidden(canvas, a, b, row, (n - 1) as nat);
    }
}

/// The map shows neither the goal nor empty cells: two grids of the same
/// shape that differ only in hidden cells give the same picture.
pub proof fn lemma_minimap_ignores_hidden(
    canvas: Canvas,
    a: Seq<Seq<char>>,
    b: Seq<Seq<char>>,
    cols: int,
    n: nat,
)
    requires
        n <= a.len(),
        n <= b.len(),
        forall|j: int| 0 <= j < n ==> (#[trigger] a[j]).len() == b[j].len(),
        forall|i: int, j: int|
            0 <= j < n && 0 <= i < a[j].len() ==> #[trigger] a[j][i] == b[j][i] || (hidden(
                a[j][i],
            ) && hidden(b[j][i])),
    ensures
        spec_minimap_rows(canvas, a, cols, n) == spec_minimap_rows(canvas, b, cols, n),
    decreases n,
{
    if n > 0 {
        lemma_minimap_ignores_hidden(canvas, a, b, cols, (n - 1) as nat);
        let before = spec_minimap_rows(canvas, a, cols, (n - 1) as nat);
        let ra = a[n - 1];
        let rb = b[n - 1];
        assert(ra.len() == rb.len());
        assert forall|i: int| 0 <= i < drawn_cells(ra, cols) implies #[trigger] ra[i] == rb[i] || (
        hidden(ra[i]) && hidden(rb[i])) by {
            assert(a[n - 1][i] == b[n - 1][i] || (hidden(a[n - 1][i]) && hidden(b[n - 1][i])));
        }
        lemma_row_ignores_hidden(before, ra, rb, n - 1, drawn_cells(ra, cols));
    }
}

} // verus!

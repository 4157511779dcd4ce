//! The grid of cells and its text format: one row per line, one cell per
//! character.

use vstd::prelude::*;
use vstd::std_specs::iter::IteratorSpec;

verus! {

/// The symbol of an empty, walkable cell.
pub const EMPTY: char = ' ';

/// The symbol of the goal cell.
pub const GOAL: char = 'g';

/// The grid as a sequence of rows of symbols.
pub open spec fn grid_view(maze: Seq<Vec<char>>) -> Seq<Seq<char>> {
    Seq::new(maze.len(), |j: int| maze[j]@)
}

/// Whether the grid has a cell in column `i` of row `j`.
pub open spec fn in_grid(grid: Seq<Seq<char>>, i: int, j: int) -> bool {
    0 <= j < grid.len() && 0 <= i < grid[j].len()
}

/// Whether the text holds no line feed.
pub open spec fn no_newline(text: Seq<char>) -> bool {
    forall|i: int| 0 <= i < text.len() ==> text[i] != '\n'
}

/// The index of the first line feed of the text, or the text's length where
/// it has none.
pub open spec fn newline_at(text: Seq<char>) -> int
    decreases text.len(),
{
    if text.len() == 0 || text[0] == '\n' {
        0
    } else {
        1 + newline_at(text.drop_first())
    }
}

/// The line without the carriage return that ends it, if one does.
pub open spec fn strip_cr(line: Seq<char>) -> Seq<char> {
    if line.len() > 0 && line.last() == '\r' {
        line.drop_last()
    } else {
        line
    }
}

/// The lines of a text. A line ends at a line feed, or at a carriage return
/// directly before one; the end of the text ends the last line, and a text
/// that ends with a line ending has no empty line after it.
pub open spec fn spec_lines(text: Seq<char>) -> Seq<Seq<char>>
    decreases text.len(),
{
    let k = newline_at(text);
    if text.len() == 0 {
        Seq::empty()
    } else if 0 <= k < text.len() {
        seq![strip_cr(text.take(k))] + spec_lines(text.skip(k + 1))
    } else {
        seq![text]
    }
}

/// The text of a grid: each row followed by a line feed.
pub open spec fn spec_unlines(grid: Seq<Seq<char>>) -> Seq<char>
    decreases grid.len(),
{
    if grid.len() == 0 {
        Seq::empty()
    } else {
        grid[0] + seq!['\n'] + spec_unlines(grid.drop_first())
    }
}

/// Whether the cell in column `i` of row `j` comes before the one in column
/// `col` of row `row`, reading row by row.
pub open spec fn precedes(j: int, i: int, row: int, col: int) -> bool {
    j < row || (j == row && i < col)
}

/// `goal` is the last cell before column `col` of row `row`, in reading
/// order, that holds the goal symbol, and nothing where none of them does.
pub open spec fn is_goal_before(
    grid: Seq<Seq<char>>,
    row: int,
    col: int,
    goal: Option<(usize, usize)>,
) -> bool {
    match goal {
        None => forall|i: int, j: int|
            in_grid(grid, i, j) && precedes(j, i, row, col) ==> #[trigger] grid[j][i] != GOAL,
        Some((r, c)) => {
            &&& in_grid(grid, c as int, r as int)
            &&& precedes(r as int, c as int, row, col)
            &&& grid[r as int][c as int] == GOAL
            &&& forall|i: int, j: int|
                in_grid(grid, i, j) && precedes(j, i, row, col) && precedes(r as int, c as int, j, i)
                    ==> #[trigger] grid[j][i] != GOAL
        },
    }
}

/// `goal` is the grid's goal: the last cell, in reading order, that holds the
/// goal symbol, and nothing where no cell holds it.
pub open spec fn is_goal_of(grid: Seq<Seq<char>>, goal: Option<(usize, usize)>) -> bool {
    match goal {
        None => forall|i: int, j: int| in_grid(grid, i, j) ==> #[trigger] grid[j][i] != GOAL,
        Some((row, col)) => {
            &&& in_grid(grid, col as int, row as int)
            &&& grid[row as int][col as int] == GOAL
            &&& forall|i: int, j: int|
                in_grid(grid, i, j) && (j > row || (j == row && i > col)) ==> #[trigger] grid[j][i]
                    != GOAL
        },
    }
}

/// `newline_at` is the first index that holds a line feed.
pub proof fn lemma_newline_at(text: Seq<char>)
    ensures
        0 <= newline_at(text) <= text.len(),
        forall|i: int| 0 <= i < newline_at(text) ==> text[i] != '\n',
        newline_at(text) < text.len() ==> text[newline_at(text)] == '\n',
    decreases text.len(),
{
    if text.len() == 0 || text[0] == '\n' {
    } else {
        let rest = text.drop_first();
        lemma_newline_at(rest);
        assert forall|i: int| 0 <= i < newline_at(text) implies text[i] != '\n' by {
            if i > 0 {
                assert(text[i] == rest[i - 1]);
            }
        }
        if newline_at(text) < text.len() {
            assert(text[newline_at(text)] == rest[newline_at(rest)]);
        }
    }
}

/// The lines of a text that starts with a line without line feed, then a
/// line feed: that line, and the lines of what follows.
pub proof fn lemma_lines_step(line: Seq<char>, rest: Seq<char>)
    requires
        no_newline(line),
    ensures
        spec_lines(line + seq!['\n'] + rest) == seq![strip_cr(line)] + spec_lines(rest),
{
    let text = line + seq!['\n'] + rest;
    lemma_newline_at(text);
    let k = newline_at(text);
    assert(text[line.len() as int] == '\n');
    if k < line.len() {
        assert(text[k] == line[k]);
    }
    if k > line.len() {
        assert(text[line.len() as int] != '\n');
    }
    assert(k == line.len());
    assert(text.take(k) =~= line);
    assert(text.skip(k + 1) =~= rest);
}

/// A text without line feed is its own single line, and the empty text has
/// no line.
pub proof fn lemma_lines_last(line: Seq<char>)
    requires
        no_newline(line),
    ensures
        spec_lines(line) == if line.len() == 0 {
            Seq::<Seq<char>>::empty()
        } else {
            seq![line]
        },
{
    lemma_newline_at(line);
}

/// Whether every line of the text ends with a line feed.
pub open spec fn newline_terminated(text: Seq<char>) -> bool {
    text.len() == 0 || text.last() == '\n'
}

/// Whether no line feed of the text follows a carriage return.
pub open spec fn no_crlf(text: Seq<char>) -> bool {
    forall|i: int| 0 < i < text.len() && #[trigger] text[i] == '\n' ==> text[i - 1] != '\r'
}

/// Whether a row can stand on a line of its own: it holds no line feed and
/// does not end with a carriage return.
pub open spec fn plain_row(row: Seq<char>) -> bool {
    no_newline(row) && (row.len() == 0 || row.last() != '\r')
}

/// Reading the text of a grid gives the grid back, where every row can stand
/// on a line of its own.
pub proof fn lemma_lines_of_unlines(grid: Seq<Seq<char>>)
    requires
        forall|j: int| 0 <= j < grid.len() ==> plain_row(#[trigger] grid[j]),
    ensures
        spec_lines(spec_unlines(grid)) == grid,
    decreases grid.len(),
{
    if grid.len() == 0 {
        assert(grid =~= Seq::<Seq<char>>::empty());
    } else {
        let rest = grid.drop_first();
        assert forall|j: int| 0 <= j < rest.len() implies plain_row(#[trigger] rest[j]) by {
            assert(rest[j] == grid[j + 1]);
        }
        lemma_lines_of_unlines(rest);
        assert(plain_row(grid[0]));
        lemma_lines_step(grid[0], spec_unlines(rest));
        assert(seq![grid[0]] + rest =~= grid);
    }
}

/// Writing the rows of a text back, line by line, gives the text back, where
/// every line of it ends with a line feed that follows no carriage return.
pub proof fn lemma_unlines_of_lines(text: Seq<char>)
    requires
        newline_terminated(text),
        no_crlf(text),
    ensures
        spec_unlines(spec_lines(text)) == text,
    decreases text.len(),
{
    if text.len() == 0 {
        assert(text =~= Seq::<char>::empty());
    } else {
        lemma_newline_at(text);
        let k = newline_at(text);
        if k >= text.len() {
            assert(text[text.len() - 1] != '\n');
        }
        let line = text.take(k);
        let rest = text.skip(k + 1);
        if k > 0 {
            assert(line.last() == text[k - 1]);
        }
        assert(strip_cr(line) == line);
        assert(newline_terminated(rest)) by {
            if rest.len() > 0 {
                assert(rest.last() == text.last());
            }
        }
        assert(no_crlf(rest)) by {
            assert forall|i: int| 0 < i < rest.len() && #[trigger] rest[i] == '\n' implies rest[i
                - 1] != '\r' by {
                assert(rest[i] == text[k + 1 + i]);
                assert(rest[i - 1] == text[k + i]);
            }
        }
        lemma_unlines_of_lines(rest);
        let rows = seq![line] + spec_lines(rest);
        assert(rows.drop_first() =~= spec_lines(rest));
        assert(rows[0] == line);
        assert(line + seq!['\n'] + rest =~= text);
    }
}

/// Reads a grid from its text: each line is a row, each character a cell.
pub fn load_maze(text: &str) -> (maze: Vec<Vec<char>>)
    ensures
        grid_view(maze@) == spec_lines(text@),
{
    let mut maze: Vec<Vec<char>> = Vec::new();
    let mut row: Vec<char> = Vec::new();
    let mut chars = text.chars();
    assert(grid_view(maze@) =~= Seq::<Seq<char>>::empty());
    assert(row@ + chars.remaining() =~= text@);
    loop
        invariant_except_break
            spec_lines(text@) == grid_view(maze@) + spec_lines(row@ + chars.remaining()),
            no_newline(row@),
            chars.decrease() is Some,
        ensures
            spec_lines(text@) == grid_view(maze@) + spec_lines(row@),
            no_newline(row@),
        decreases chars.decrease()->0,
    {
        let ghost before = chars.remaining();
        match chars.next() {
            None => {
                assert(row@ + before =~= row@);
                break ;
            },
            Some(c) => {
                let ghost after = chars.remaining();
                if c == '\n' {
                    proof {
                        assert(row@ + before =~= row@ + seq!['\n'] + after);
                        lemma_lines_step(row@, after);
                    }
                    let n = row.len();
                    if n > 0 && row[n - 1] == '\r' {
                        row.pop();
                    }
                    let ghost rows = grid_view(maze@);
                    let ghost line = row@;
                    maze.push(row);
                    row = Vec::new();
                    proof {
                        assert(grid_view(maze@) =~= rows + seq![line]);
                        assert(row@ + after =~= after);
                        assert(rows + (seq![line] + spec_lines(after)) =~= (rows + seq![line])
                            + spec_lines(after));
                    }
                } else {
                    let ghost line = row@;
                    row.push(c);
                    assert(row@ + after =~= line + before) by {
                        assert(before =~= seq![c] + after);
                    }
                }
            },
        }
    }
    proof {
        lemma_lines_last(row@);
    }
    if row.len() > 0 {
        let ghost rows = grid_view(maze@);
        let ghost line = row@;
        maze.push(row);
        assert(grid_view(maze@) =~= rows + seq![line]);
    } else {
        assert(grid_view(maze@) + Seq::<Seq<char>>::empty() =~= grid_view(maze@));
    }
    maze
}

/// The goal of a grid: the row and column of the last cell, in reading
/// order, that holds the goal symbol.
pub fn find_goal(maze: &Vec<Vec<char>>) -> (goal: Option<(usize, usize)>)
    ensures
        is_goal_of(grid_view(maze@), goal),
{
    let ghost grid = grid_view(maze@);
    let mut goal: Option<(usize, usize)> = None;
    let mut row: usize = 0;
    while row < maze.len()
        invariant
            row <= maze.len(),
            grid == grid_view(maze@),
            is_goal_before(grid, row as int, 0, goal),
        decreases maze.len() - row,
    {
        let cells = &maze[row];
        let mut col: usize = 0;
        while col < cells.len()
            invariant
                col <= cells.len(),
                row < maze.len(),
                grid == grid_view(maze@),
                cells@ == grid[row as int],
                is_goal_before(grid, row as int, col as int, goal),
            decreases cells.len() - col,
        {
            if cells[col] == GOAL {
                goal = Some((row, col));
            }
            col += 1;
        }
        row += 1;
    }
    goal
}

/// Reads a grid from its text, and finds its goal.
pub fn load_maze_with_goal(text: &str) -> (loaded: (Vec<Vec<char>>, Option<(usize, usize)>))
    ensures
        grid_view(loaded.0@) == spec_lines(text@),
        is_goal_of(spec_lines(text@), loaded.1),
{
    let maze = load_maze(text);
    let goal = find_goal(&maze);
    (maze, goal)
}

} // verus!

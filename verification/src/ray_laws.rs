//! What holds of every ray: the result of a cast is unique, a ray inside a
//! closed grid always ends on a wall, and a ray along an axis ends after as
//! many steps as there are pixels between the viewer and the wall.

use vstd::prelude::*;
use vstd::arithmetic::div_mod::{
    lemma_div_is_ordered,
    lemma_div_plus_one,
    lemma_div_pos_is_pos,
    lemma_multiply_divide_lt,
};
use crate::canvas::{lemma_plot_pixels, Canvas};
use crate::caster::{
    lemma_cast_ray_result,
    probe_at,
    spec_cast_ray,
    trace,
    ray_result,
    sample_probe,
    spec_sample_coord,
    spec_step_limit,
    Intersect,
    Probe,
    Ray,
};
use crate::maze::{in_grid, EMPTY};
use crate::player::ONE;

verus! {

/// The grid is a rectangle with at least one cell, and no cell of its first
/// or last row or column is empty.
pub open spec fn enclosed(grid: Seq<Seq<char>>) -> bool {
    &&& grid.len() > 0
    &&& grid[0].len() > 0
    &&& forall|j: int| 0 <= j < grid.len() ==> (#[trigger] grid[j]).len() == grid[0].len()
    &&& forall|i: int, j: int|
        0 <= j < grid.len() && 0 <= i < grid[0].len() && (i == 0 || j == 0 || i == grid[0].len()
            - 1 || j == grid.len() - 1) ==> #[trigger] grid[j][i] != EMPTY
}

/// The ray starts on the grid.
pub open spec fn starts_inside(grid: Seq<Seq<char>>, ray: Ray, block: int) -> bool {
    &&& 0 <= ray.x
    &&& 0 <= ray.y
    &&& ray.x / (ONE as int) < grid[0].len() * block
    &&& ray.y / (ONE as int) < grid.len() * block
}

/// Each step moves the ray by at most one unit along each axis, and by at
/// least half a unit along one of them.
pub open spec fn unit_paced(ray: Ray) -> bool {
    &&& -(ONE as int) <= ray.dx <= ONE as int
    &&& -(ONE as int) <= ray.dy <= ONE as int
    &&& (2 * ray.dx >= ONE as int || 2 * ray.dx <= -(ONE as int) || 2 * ray.dy >= ONE as int || 2
        * ray.dy <= -(ONE as int))
}

/// A cast ends at the first sample that does not lie in an empty cell.
pub proof fn lemma_first_stop(grid: Seq<Seq<char>>, ray: Ray, block: int, n: int, r: Intersect)
    requires
        ray_result(grid, ray, block, r),
        0 <= n < spec_step_limit(grid, block),
        forall|k: int| 0 <= k < n ==> #[trigger] sample_probe(grid, ray, block, k) == Probe::Open,
        sample_probe(grid, ray, block, n) != Probe::Open,
    ensures
        r.distance == n,
{
    if r.distance < n {
        assert(sample_probe(grid, ray, block, r.distance as int) == Probe::Open);
    }
    if n < r.distance {
        assert(sample_probe(grid, ray, block, n) == Probe::Open);
    }
}

proof fn lemma_coord_step(origin: int, step: int, d: int)
    requires
        -(ONE as int) <= step <= ONE as int,
    ensures
        spec_sample_coord(origin, step, d) - 1 <= spec_sample_coord(origin, step, d + 1)
            <= spec_sample_coord(origin, step, d) + 1,
        0 <= spec_sample_coord(origin, step, d),
{
    assert((d + 1) * step == d * step + step) by (nonlinear_arith);
}

proof fn lemma_cell_step(x: int, y: int, block: int)
    requires
        0 <= x,
        0 <= y,
        x - 1 <= y <= x + 1,
        block > 0,
    ensures
        x / block - 1 <= y / block <= x / block + 1,
        0 <= y / block,
{
    lemma_div_pos_is_pos(y, block);
    // y <= x + 1 <= x + block
    lemma_div_is_ordered(y, block + x, block);
    lemma_div_plus_one(x, block);
    // x <= y + 1 <= y + block
    lemma_div_is_ordered(x, block + y, block);
    lemma_div_plus_one(y, block);
}

proof fn lemma_origin_cell(grid: Seq<Seq<char>>, ray: Ray, block: int)
    requires
        enclosed(grid),
        block > 0,
        starts_inside(grid, ray, block),
        2 * (grid.len() + grid[0].len()) * block + 1 <= u32::MAX,
    ensures
        sample_probe(grid, ray, block, 0) != Probe::Escaped,
{
    let rows = grid.len() as int;
    let cols = grid[0].len() as int;
    assert(cols * block <= u32::MAX && rows * block <= u32::MAX) by (nonlinear_arith)
        requires
            2 * (rows + cols) * block + 1 <= u32::MAX,
            rows > 0,
            cols > 0,
            block > 0,
    ;
    assert(0 * ray.dx == 0 && 0 * ray.dy == 0);
    let x = spec_sample_coord(ray.x, ray.dx, 0);
    let y = spec_sample_coord(ray.y, ray.dy, 0);
    assert(x == ray.x / (ONE as int));
    assert(y == ray.y / (ONE as int));
    assert(block * cols == cols * block && block * rows == rows * block) by (nonlinear_arith);
    lemma_multiply_divide_lt(x, block, cols);
    lemma_multiply_divide_lt(y, block, rows);
    lemma_div_pos_is_pos(x, block);
    lemma_div_pos_is_pos(y, block);
    assert(grid[y / block].len() == cols);
}

proof fn lemma_next_cell(grid: Seq<Seq<char>>, ray: Ray, block: int, d: int)
    requires
        enclosed(grid),
        block > 0,
        d >= 0,
        -(ONE as int) <= ray.dx <= ONE as int,
        -(ONE as int) <= ray.dy <= ONE as int,
        sample_probe(grid, ray, block, d) == Probe::Open,
    ensures
        sample_probe(grid, ray, block, d + 1) != Probe::Escaped,
{
    let rows = grid.len() as int;
    let cols = grid[0].len() as int;
    let x = spec_sample_coord(ray.x, ray.dx, d);
    let y = spec_sample_coord(ray.y, ray.dy, d);
    let x1 = spec_sample_coord(ray.x, ray.dx, d + 1);
    let y1 = spec_sample_coord(ray.y, ray.dy, d + 1);
    lemma_coord_step(ray.x, ray.dx, d);
    lemma_coord_step(ray.y, ray.dy, d);
    lemma_coord_step(ray.x, ray.dx, d + 1);
    lemma_coord_step(ray.y, ray.dy, d + 1);
    lemma_cell_step(x, x1, block);
    lemma_cell_step(y, y1, block);
    lemma_div_pos_is_pos(x, block);
    lemma_div_pos_is_pos(y, block);
    let i = x / block;
    let j = y / block;
    assert(0 <= j < rows);
    assert(grid[j].len() == cols);
    assert(0 <= i < cols);
    assert(grid[j][i] == EMPTY);
    assert(0 < i < cols - 1 && 0 < j < rows - 1);
    assert(grid[y1 / block].len() == cols);
}

proof fn lemma_axis_runs_out(
    origin: int,
    step: int,
    cells: int,
    block: int,
) -> (d: int)
    requires
        0 <= origin,
        origin / (ONE as int) < cells * block,
        cells > 0,
        block > 0,
        cells * block <= u32::MAX,
        2 * step >= ONE as int || 2 * step <= -(ONE as int),
    ensures
        d == 2 * cells * block,
        spec_sample_coord(origin, step, d) == 0 || spec_sample_coord(origin, step, d) / block
            >= cells,
{
    let d = 2 * cells * block;
    let span = cells * block;
    assert(d == 2 * span) by (nonlinear_arith)
        requires
            d == 2 * cells * block,
            span == cells * block,
    ;
    if 2 * step >= ONE as int {
        assert(d * step >= span * (ONE as int)) by (nonlinear_arith)
            requires
                d == 2 * span,
                span >= 0,
                2 * step >= ONE as int,
        ;
        let p = origin + d * step;
        assert(p / (ONE as int) >= span);
        let x = spec_sample_coord(origin, step, d);
        assert(x >= span);
        lemma_div_is_ordered(span, x, block);
        assert(span / block == cells) by {
            vstd::arithmetic::div_mod::lemma_div_multiples_vanish(cells, block);
            assert(block * cells == cells * block) by (nonlinear_arith);
        }
    } else {
        assert(d * step <= -span * (ONE as int)) by (nonlinear_arith)
            requires
                d == 2 * span,
                span >= 0,
                2 * step <= -(ONE as int),
        ;
        assert(origin < span * (ONE as int));
    }
    d
}

/// The column of the cell that holds the sample at which the cast ended.
pub open spec fn hit_column(ray: Ray, block: int, r: Intersect) -> int {
    spec_sample_coord(ray.x, ray.dx, r.distance as int) / block
}

/// The row of the cell that holds the sample at which the cast ended.
pub open spec fn hit_row(ray: Ray, block: int, r: Intersect) -> int {
    spec_sample_coord(ray.y, ray.dy, r.distance as int) / block
}

/// A ray that starts on a closed grid and advances at unit pace ends on a
/// cell that is not empty, before the step limit.
pub proof fn lemma_enclosed_ray_hits(grid: Seq<Seq<char>>, ray: Ray, block: int, r: Intersect)
    requires
        enclosed(grid),
        block > 0,
        starts_inside(grid, ray, block),
        unit_paced(ray),
        2 * (grid.len() + grid[0].len()) * block + 1 <= u32::MAX,
        ray_result(grid, ray, block, r),
    ensures
        r.impact != EMPTY,
        r.distance < spec_step_limit(grid, block),
        sample_probe(grid, ray, block, r.distance as int) is Hit,
        in_grid(grid, hit_column(ray, block, r), hit_row(ray, block, r)),
        r.impact == grid[hit_row(ray, block, r)][hit_column(ray, block, r)],
{
    let rows = grid.len() as int;
    let cols = grid[0].len() as int;
    let limit = spec_step_limit(grid, block);
    assert(limit == 2 * (rows + cols) * block + 1);
    assert(cols * block <= u32::MAX && rows * block <= u32::MAX && 2 * cols * block < limit && 2
        * rows * block < limit && 0 <= 2 * cols * block && 0 <= 2 * rows * block)
        by (nonlinear_arith)
        requires
            limit == 2 * (rows + cols) * block + 1,
            limit <= u32::MAX,
            rows > 0,
            cols > 0,
            block > 0,
    ;
    // Some sample before the limit does not lie in an empty cell.
    let stop: int;
    if 2 * ray.dx >= ONE as int || 2 * ray.dx <= -(ONE as int) {
        stop = lemma_axis_runs_out(ray.x, ray.dx, cols, block);
        let x = spec_sample_coord(ray.x, ray.dx, stop);
        let y = spec_sample_coord(ray.y, ray.dy, stop);
        lemma_coord_step(ray.y, ray.dy, stop);
        lemma_div_pos_is_pos(y, block);
        if y / block < rows {
            assert(grid[y / block].len() == cols);
            if x == 0 {
                assert(x / block == 0);
                assert(grid[y / block][0] != EMPTY);
            }
        }
        assert(sample_probe(grid, ray, block, stop) != Probe::Open);
    } else {
        stop = lemma_axis_runs_out(ray.y, ray.dy, rows, block);
        let x = spec_sample_coord(ray.x, ray.dx, stop);
        let y = spec_sample_coord(ray.y, ray.dy, stop);
        lemma_coord_step(ray.x, ray.dx, stop);
        lemma_div_pos_is_pos(x, block);
        if y == 0 {
            assert(y / block == 0);
            assert(grid[0].len() == cols);
            if x / block < cols {
                assert(grid[0][x / block] != EMPTY);
            }
        }
        assert(sample_probe(grid, ray, block, stop) != Probe::Open);
    }
    assert(0 <= stop < limit);
    if stop < r.distance {
        assert(sample_probe(grid, ray, block, stop) == Probe::Open);
    }
    assert(r.distance <= stop);
    // The sample that ended the cast is on the grid.
    if r.distance == 0 {
        lemma_origin_cell(grid, ray, block);
    } else {
        assert(sample_probe(grid, ray, block, r.distance - 1) == Probe::Open);
        lemma_next_cell(grid, ray, block, r.distance - 1);
    }
}

/// Casting a ray that starts on a closed grid and advances at unit pace gives
/// an impact that is not empty.
pub proof fn lemma_enclosed_cast_hits(grid: Seq<Seq<char>>, ray: Ray, block: int)
    requires
        enclosed(grid),
        block > 0,
        starts_inside(grid, ray, block),
        unit_paced(ray),
        2 * (grid.len() + grid[0].len()) * block + 1 <= u32::MAX,
    ensures
        spec_cast_ray(grid, ray, block).impact != EMPTY,
        spec_cast_ray(grid, ray, block).distance < spec_step_limit(grid, block),
        in_grid(
            grid,
            hit_column(ray, block, spec_cast_ray(grid, ray, block)),
            hit_row(ray, block, spec_cast_ray(grid, ray, block)),
        ),
        spec_cast_ray(grid, ray, block).impact == grid[hit_row(
            ray,
            block,
            spec_cast_ray(grid, ray, block),
        )][hit_column(ray, block, spec_cast_ray(grid, ray, block))],
{
    lemma_cast_ray_result(grid, ray, block);
    lemma_enclosed_ray_hits(grid, ray, block, spec_cast_ray(grid, ray, block));
}

/// Whether one of the first `n` samples of the ray falls on the pixel
/// `(px, py)`.
pub open spec fn on_path(ray: Ray, n: int, px: int, py: int) -> bool {
    exists|d: int|
        0 <= d < n && #[trigger] spec_sample_coord(ray.x, ray.dx, d) == px && spec_sample_coord(
            ray.y,
            ray.dy,
            d,
        ) == py
}

/// A recorded path colours exactly the pixels that a sample fell on: they
/// take the current colour, and every other pixel, the size and the
/// registers stay as they were.
pub proof fn lemma_trace_pixels(canvas: Canvas, ray: Ray, n: nat)
    requires
        canvas.wf(),
    ensures
        canvas.same_frame(trace(canvas, ray, n)),
        trace(canvas, ray, n).wf(),
        forall|px: int, py: int|
            canvas.contains(px, py) ==> #[trigger] trace(canvas, ray, n).pixel(px, py) == if on_path(
                ray,
                n as int,
                px,
                py,
            ) {
                canvas.current
            } else {
                canvas.pixel(px, py)
            },
    decreases n,
{
    if n > 0 {
        let before = trace(canvas, ray, (n - 1) as nat);
        let sx = spec_sample_coord(ray.x, ray.dx, n - 1);
        let sy = spec_sample_coord(ray.y, ray.dy, n - 1);
        lemma_trace_pixels(canvas, ray, (n - 1) as nat);
        lemma_plot_pixels(before, sx, sy);
        assert forall|px: int, py: int| canvas.contains(px, py) implies #[trigger] trace(
            canvas,
            ray,
            n,
        ).pixel(px, py) == if on_path(ray, n as int, px, py) {
            canvas.current
        } else {
            canvas.pixel(px, py)
        } by {
            assert(before.contains(px, py));
            if on_path(ray, n - 1, px, py) {
                let d = choose|d: int|
                    0 <= d < n - 1 && #[trigger] spec_sample_coord(ray.x, ray.dx, d) == px
                        && spec_sample_coord(ray.y, ray.dy, d) == py;
                assert(0 <= d < n && spec_sample_coord(ray.x, ray.dx, d) == px);
            }
            if px == sx && py == sy {
                assert(0 <= n - 1 < n && spec_sample_coord(ray.x, ray.dx, n - 1) == px);
            }
            if on_path(ray, n as int, px, py) {
                let d = choose|d: int|
                    0 <= d < n && #[trigger] spec_sample_coord(ray.x, ray.dx, d) == px
                        && spec_sample_coord(ray.y, ray.dy, d) == py;
                if d < n - 1 {
                    assert(on_path(ray, n - 1, px, py));
                }
            }
        }
    }
}

/// The pixel coordinate of a sample of a ray that advances by a whole
/// number of units per step.
pub proof fn lemma_whole_step_coord(origin: int, units: int, d: int)
    requires
        0 <= origin,
        0 <= d,
        0 <= origin / (ONE as int) + d * units <= usize::MAX,
    ensures
        spec_sample_coord(origin, units * (ONE as int), d) == origin / (ONE as int) + d * units,
{
    assert(d * (units * (ONE as int)) == (d * units) * (ONE as int)) by (nonlinear_arith);
}

/// A ray along an axis, one unit per step, with `n` pixels of empty cells
/// between its origin and a wall, ends after exactly `n` steps on that wall.
/// `(sx, sy)` is the axis: one of `(1, 0)`, `(-1, 0)`, `(0, 1)`, `(0, -1)`.
pub proof fn lemma_axis_aligned_distance(
    grid: Seq<Seq<char>>,
    ray: Ray,
    block: int,
    sx: int,
    sy: int,
    n: int,
    r: Intersect,
)
    requires
        block > 0,
        0 <= ray.x,
        0 <= ray.y,
        (sx == 1 || sx == -1) && sy == 0 || sx == 0 && (sy == 1 || sy == -1),
        ray.dx == sx * (ONE as int),
        ray.dy == sy * (ONE as int),
        0 <= n < spec_step_limit(grid, block),
        0 <= ray.x / (ONE as int) + n * sx <= usize::MAX,
        0 <= ray.y / (ONE as int) + n * sy <= usize::MAX,
        ray.x / (ONE as int) <= usize::MAX,
        ray.y / (ONE as int) <= usize::MAX,
        forall|k: int|
            0 <= k < n ==> #[trigger] probe_at(
                grid,
                ray.x / (ONE as int) + k * sx,
                ray.y / (ONE as int) + k * sy,
                block,
            ) == Probe::Open,
        probe_at(grid, ray.x / (ONE as int) + n * sx, ray.y / (ONE as int) + n * sy, block) is Hit,
        ray_result(grid, ray, block, r),
    ensures
        r.distance == n,
        probe_at(grid, ray.x / (ONE as int) + n * sx, ray.y / (ONE as int) + n * sy, block)
            == (Probe::Hit { impact: r.impact, tx: r.tx }),
        r.impact == grid[(ray.y / (ONE as int) + n * sy) / block][(ray.x / (ONE as int) + n * sx)
            / block],
{
    let x0 = ray.x / (ONE as int);
    let y0 = ray.y / (ONE as int);
    assert forall|k: int| 0 <= k <= n implies #[trigger] sample_probe(grid, ray, block, k)
        == probe_at(grid, x0 + k * sx, y0 + k * sy, block) by {
        assert(0 <= x0 + k * sx <= usize::MAX && 0 <= y0 + k * sy <= usize::MAX)
            by (nonlinear_arith)
            requires
                0 <= k <= n,
                -1 <= sx <= 1,
                -1 <= sy <= 1,
                0 <= x0 <= usize::MAX,
                0 <= y0 <= usize::MAX,
                0 <= x0 + n * sx <= usize::MAX,
                0 <= y0 + n * sy <= usize::MAX,
        ;
        lemma_whole_step_coord(ray.x, sx, k);
        lemma_whole_step_coord(ray.y, sy, k);
    }
    assert forall|k: int| 0 <= k < n implies #[trigger] sample_probe(grid, ray, block, k)
        == Probe::Open by {
        assert(probe_at(grid, x0 + k * sx, y0 + k * sy, block) == Probe::Open);
    }
    lemma_first_stop(grid, ray, block, n, r);
}

} // verus!

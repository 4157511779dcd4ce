//! The ray caster: marches a ray through the grid in unit steps until it
//! leaves the grid or lands in a cell that is not empty.

use vstd::prelude::*;
use crate::canvas::Canvas;
use crate::framebuffer::Framebuffer;
use crate::maze::{grid_view, EMPTY};
use crate::player::{Direction, Player, ONE};

verus! {

/// The width of texture space: texture coordinates lie in `[0, 128)`.
pub const TEXTURE_SIZE: usize = 128;

/// The colour in which a recorded ray path is plotted.
pub const PATH_COLOR: u32 = 0xFFFFFF;

/// What a ray met.
#[derive(Clone, Copy, Debug)]
pub struct Intersect {
    /// The number of unit steps marched before the ray stopped.
    pub distance: u32,
    /// The symbol of the cell that stopped the ray; empty when it left the
    /// grid or ran out of steps.
    pub impact: char,
    /// The horizontal texture coordinate of the point of impact.
    pub tx: usize,
}

/// What one sample point of a ray lies in.
#[derive(Clone, Copy, Debug)]
pub enum Probe {
    /// Outside the grid.
    Escaped,
    /// An empty cell.
    Open,
    /// A cell that is not empty, with the texture coordinate of the sample.
    Hit { impact: char, tx: usize },
}

/// A ray as plain numbers: its origin and its step, in fixed point.
pub struct Ray {
    pub x: int,
    pub y: int,
    pub dx: int,
    pub dy: int,
}

/// The ray from the player's position in the given direction.
pub open spec fn ray_of(player: Player, dir: Direction) -> Ray {
    Ray { x: player.x as int, y: player.y as int, dx: dir.dx(), dy: dir.dy() }
}

/// The pixel coordinate, along one axis, of the sample `d` steps from
/// `origin`: the fixed-point position `origin + d * step` truncated to whole
/// units, with positions below zero at 0 and positions beyond the largest
/// `usize` at that value.
pub open spec fn spec_sample_coord(origin: int, step: int, d: int) -> int {
    let p = origin + d * step;
    if p < 0 {
        0
    } else if p / (ONE as int) > usize::MAX {
        usize::MAX as int
    } else {
        p / (ONE as int)
    }
}

/// The texture coordinate of a sample at offset `(hitx, hity)` inside its
/// cell: the horizontal offset where it lies strictly between 1 and
/// `block - 1`, the vertical offset otherwise, scaled to texture space.
pub open spec fn spec_texture_u(hitx: int, hity: int, block: int) -> int {
    let hit = if 1 < hitx < block - 1 {
        hitx
    } else {
        hity
    };
    hit * (TEXTURE_SIZE as int) / block
}

/// What the pixel `(x, y)` lies in, for cells `block` pixels wide.
pub open spec fn probe_at(grid: Seq<Seq<char>>, x: int, y: int, block: int) -> Probe {
    let i = x / block;
    let j = y / block;
    if j >= grid.len() || i >= grid[j].len() {
        Probe::Escaped
    } else if grid[j][i] == EMPTY {
        Probe::Open
    } else {
        Probe::Hit { impact: grid[j][i], tx: spec_texture_u(x % block, y % block, block) as usize }
    }
}

/// What the sample `d` steps along the ray lies in.
pub open spec fn sample_probe(grid: Seq<Seq<char>>, ray: Ray, block: int, d: int) -> Probe {
    probe_at(
        grid,
        spec_sample_coord(ray.x, ray.dx, d),
        spec_sample_coord(ray.y, ray.dy, d),
        block,
    )
}

/// The most steps a ray is marched: twice the grid's rows plus columns, in
/// pixels, and one more; at most `u32::MAX`.
pub open spec fn spec_step_limit(grid: Seq<Seq<char>>, block: int) -> int {
    let rows = grid.len() as int;
    let cols = if rows > 0 {
        grid[0].len() as int
    } else {
        0
    };
    let n = 2 * (rows + cols) * block + 1;
    if n > u32::MAX {
        u32::MAX as int
    } else {
        n
    }
}

/// `r` is what casting `ray` gives: every sample before `r.distance` lies in
/// an empty cell, and the sample at `r.distance` is the first that does not,
/// unless the step limit was reached first.
pub open spec fn ray_result(grid: Seq<Seq<char>>, ray: Ray, block: int, r: Intersect) -> bool {
    let limit = spec_step_limit(grid, block);
    &&& r.distance <= limit
    &&& forall|d: int|
        0 <= d < r.distance ==> #[trigger] sample_probe(grid, ray, block, d) == Probe::Open
    &&& r.distance < limit ==> match sample_probe(grid, ray, block, r.distance as int) {
        Probe::Open => false,
        Probe::Escaped => r.impact == EMPTY && r.tx == 0,
        Probe::Hit { impact, tx } => r.impact == impact && r.tx == tx,
    }
    &&& r.distance == limit ==> r.impact == EMPTY && r.tx == 0
}

/// What casting `ray` gives.
pub open spec fn spec_cast_ray(grid: Seq<Seq<char>>, ray: Ray, block: int) -> Intersect {
    choose|r: Intersect| ray_result(grid, ray, block, r)
}

/// Two results of the same cast are equal.
pub proof fn lemma_ray_result_unique(
    grid: Seq<Seq<char>>,
    ray: Ray,
    block: int,
    r1: Intersect,
    r2: Intersect,
)
    requires
        ray_result(grid, ray, block, r1),
        ray_result(grid, ray, block, r2),
    ensures
        r1 == r2,
{
    if r1.distance < r2.distance {
        assert(sample_probe(grid, ray, block, r1.distance as int) == Probe::Open);
    }
    if r2.distance < r1.distance {
        assert(sample_probe(grid, ray, block, r2.distance as int) == Probe::Open);
    }
}

/// Every march that has met only empty cells so far comes to a result.
proof fn lemma_march(grid: Seq<Seq<char>>, ray: Ray, block: int, d: int) -> (r: Intersect)
    requires
        0 <= d <= spec_step_limit(grid, block),
        forall|k: int| 0 <= k < d ==> #[trigger] sample_probe(grid, ray, block, k) == Probe::Open,
    ensures
        ray_result(grid, ray, block, r),
    decreases spec_step_limit(grid, block) - d,
{
    if d == spec_step_limit(grid, block) {
        Intersect { distance: d as u32, impact: EMPTY, tx: 0 }
    } else {
        match sample_probe(grid, ray, block, d) {
            Probe::Open => lemma_march(grid, ray, block, d + 1),
            Probe::Escaped => Intersect { distance: d as u32, impact: EMPTY, tx: 0 },
            Probe::Hit { impact, tx } => Intersect { distance: d as u32, impact, tx },
        }
    }
}

/// Every cast through cells of a positive size has a result, and
/// `spec_cast_ray` is it.
pub proof fn lemma_cast_ray_result(grid: Seq<Seq<char>>, ray: Ray, block: int)
    requires
        block > 0,
    ensures
        ray_result(grid, ray, block, spec_cast_ray(grid, ray, block)),
{
    let rows = grid.len() as int;
    let cols = if rows > 0 {
        grid[0].len() as int
    } else {
        0
    };
    assert(2 * (rows + cols) * block + 1 >= 1) by (nonlinear_arith)
        requires
            rows >= 0,
            cols >= 0,
            block > 0,
    ;
    let r = lemma_march(grid, ray, block, 0);
}

/// A result of a cast is the result of that cast.
pub proof fn lemma_cast_ray_is(grid: Seq<Seq<char>>, ray: Ray, block: int, r: Intersect)
    requires
        ray_result(grid, ray, block, r),
    ensures
        r == spec_cast_ray(grid, ray, block),
{
    lemma_ray_result_unique(grid, ray, block, r, spec_cast_ray(grid, ray, block));
}

/// The surface after the first `n` samples of the ray were plotted.
pub open spec fn trace(canvas: Canvas, ray: Ray, n: nat) -> Canvas
    decreases n,
{
    if n == 0 {
        canvas
    } else {
        trace(canvas, ray, (n - 1) as nat).plot(
            spec_sample_coord(ray.x, ray.dx, n - 1),
            spec_sample_coord(ray.y, ray.dy, n - 1),
        )
    }
}

/// The pixel coordinate of the sample `d` steps from `origin`.
pub fn sample_coord(origin: i64, step: i32, d: u32) -> (c: usize)
    ensures
        c == spec_sample_coord(origin as int, step as int, d as int),
{
    assert(-0x8000_0000_0000_0000 <= (d as int) * (step as int) <= 0x8000_0000_0000_0000)
        by (nonlinear_arith)
        requires
            0 <= d <= 0xFFFF_FFFF,
            -0x8000_0000 <= step <= 0x7FFF_FFFF,
    ;
    let p: i128 = origin as i128 + (d as i128) * (step as i128);
    if p < 0 {
        0
    } else {
        let q: i128 = p / (ONE as i128);
        if q > usize::MAX as i128 {
            usize::MAX
        } else {
            q as usize
        }
    }
}

/// The texture coordinate of a sample at offset `(hitx, hity)` inside a cell
/// `block_size` pixels wide.
pub fn texture_u(hitx: usize, hity: usize, block_size: usize) -> (u: usize)
    requires
        hitx < block_size,
        hity < block_size,
    ensures
        u == spec_texture_u(hitx as int, hity as int, block_size as int),
        1 < hitx < block_size - 1 ==> u == hitx * 128 / (block_size as int),
        !(1 < hitx < block_size - 1) ==> u == hity * 128 / (block_size as int),
        u < TEXTURE_SIZE,
{
    let hit = if 1 < hitx && hitx < block_size - 1 {
        hitx
    } else {
        hity
    };
    let scaled: u128 = (hit as u128) * 128;
    let u: u128 = scaled / (block_size as u128);
    assert(u < 128) by (nonlinear_arith)
        requires
            u == scaled / (block_size as u128),
            scaled == hit * 128,
            0 <= hit < block_size,
    ;
    u as usize
}

/// What the pixel `(x, y)` lies in.
pub fn probe(maze: &Vec<Vec<char>>, x: usize, y: usize, block_size: usize) -> (p: Probe)
    requires
        block_size > 0,
    ensures
        p == probe_at(grid_view(maze@), x as int, y as int, block_size as int),
        p matches Probe::Hit { tx, .. } ==> tx < TEXTURE_SIZE,
{
    let i = x / block_size;
    let j = y / block_size;
    if j >= maze.len() {
        return Probe::Escaped;
    }
    let row = &maze[j];
    if i >= row.len() {
        return Probe::Escaped;
    }
    let cell = row[i];
    if cell == EMPTY {
        Probe::Open
    } else {
        let hitx = x % block_size;
        let hity = y % block_size;
        Probe::Hit { impact: cell, tx: texture_u(hitx, hity, block_size) }
    }
}

/// The most steps a ray is marched through this grid.
pub fn step_limit(maze: &Vec<Vec<char>>, block_size: usize) -> (limit: u32)
    ensures
        limit == spec_step_limit(grid_view(maze@), block_size as int),
{
    let rows = maze.len();
    let cols = if rows > 0 {
        maze[0].len()
    } else {
        0
    };
    let span: u128 = rows as u128 + cols as u128;
    let ghost n = 2 * (rows + cols) * block_size + 1;
    if span == 0 || block_size == 0 {
        assert(n == 1) by (nonlinear_arith)
            requires
                n == 2 * (rows + cols) * block_size + 1,
                rows + cols == 0 || block_size == 0,
        ;
        return 1;
    }
    if span > 0x7FFF_FFFF || block_size > 0x7FFF_FFFF {
        assert(n > u32::MAX) by (nonlinear_arith)
            requires
                n == 2 * (rows + cols) * block_size + 1,
                rows + cols >= 1,
                block_size >= 1,
                rows + cols > 0x7FFF_FFFF || block_size > 0x7FFF_FFFF,
        ;
        return u32::MAX;
    }
    assert(2 * span * block_size + 1 <= 0x8000_0000_0000_0000) by (nonlinear_arith)
        requires
            0 <= span <= 0x7FFF_FFFF,
            0 <= block_size <= 0x7FFF_FFFF,
    ;
    let total: u128 = 2 * span * (block_size as u128) + 1;
    if total > u32::MAX as u128 {
        u32::MAX
    } else {
        total as u32
    }
}

/// Casts a ray from the player's position in direction `dir` through the
/// grid, whose cells are `block_size` pixels wide. The current colour becomes
/// the path colour, and with `draw_line` every sample that lies in an empty
/// cell is plotted.
pub fn cast_ray(
    framebuffer: &mut Framebuffer,
    maze: &Vec<Vec<char>>,
    player: &Player,
    dir: Direction,
    block_size: usize,
    draw_line: bool,
) -> (r: Intersect)
    requires
        block_size > 0,
    ensures
        ray_result(grid_view(maze@), ray_of(*player, dir), block_size as int, r),
        r == spec_cast_ray(grid_view(maze@), ray_of(*player, dir), block_size as int),
        r.tx < TEXTURE_SIZE,
        final(framebuffer)@ == (if draw_line {
            trace(
                old(framebuffer)@.with_current(PATH_COLOR),
                ray_of(*player, dir),
                r.distance as nat,
            )
        } else {
            old(framebuffer)@.with_current(PATH_COLOR)
        }),
        final(framebuffer)@.wf(),
{
    let limit = step_limit(maze, block_size);
    let step_x = dir.cos();
    let step_y = dir.sin();
    framebuffer.set_current_color(PATH_COLOR);
    let ghost base = framebuffer@;
    let ghost grid = grid_view(maze@);
    let ghost ray = ray_of(*player, dir);
    let mut d: u32 = 0;
    while d < limit
        invariant
            d <= limit,
            block_size > 0,
            limit == spec_step_limit(grid, block_size as int),
            grid == grid_view(maze@),
            ray == ray_of(*player, dir),
            step_x == ray.dx,
            step_y == ray.dy,
            framebuffer@.wf(),
            base == old(framebuffer)@.with_current(PATH_COLOR),
            forall|k: int|
                0 <= k < d ==> #[trigger] sample_probe(grid, ray, block_size as int, k)
                    == Probe::Open,
            framebuffer@ == (if draw_line {
                trace(base, ray, d as nat)
            } else {
                base
            }),
        decreases limit - d,
    {
        let x = sample_coord(player.x, step_x, d);
        let y = sample_coord(player.y, step_y, d);
        match probe(maze, x, y, block_size) {
            Probe::Escaped => {
                let r = Intersect { distance: d, impact: EMPTY, tx: 0 };
                proof {
                    lemma_cast_ray_is(grid, ray, block_size as int, r);
                }
                return r;
            },
            Probe::Hit { impact, tx } => {
                let r = Intersect { distance: d, impact, tx };
                proof {
                    lemma_cast_ray_is(grid, ray, block_size as int, r);
                }
                return r;
            },
            Probe::Open => {},
        }
        if draw_line {
            framebuffer.point(x, y);
        }
        d += 1;
    }
    let r = Intersect { distance: limit, impact: EMPTY, tx: 0 };
    proof {
        lemma_cast_ray_is(grid, ray, block_size as int, r);
    }
    r
}

} // verus!

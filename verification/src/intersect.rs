//! The ray caster: march a sample point from the player's position along a
//! direction, in increments of a step size, until it either leaves the
//! grid (a representable miss, never a fault) or lands in a wall cell (a
//! hit, with distance and texture coordinate).
//!
//! A step size larger than one block edge can tunnel through a wall one
//! cell thick: the cast is exact about which sample hits, so the accuracy
//! of the returned distance is the caller's step-size trade-off.

use vstd::prelude::*;

use crate::framebuffer::Framebuffer;
use crate::framebuffer::rm_index;
use crate::grid::EMPTY_CELL;
use crate::grid::Grid;
use crate::player::Player;
use crate::player::lemma_pos_in_extent;
use crate::units::Direction;
use crate::units::MAX_BLOCK_SIZE;
use crate::units::SCALE;

verus! {

/// The ephemeral result of one ray reaching a wall: distance traveled
/// (fixed-point world units), the wall cell's code, and the normalized
/// texture-x coordinate in `[0, SCALE)`.
pub struct Intersect {
    pub distance: u64,
    pub impact: char,
    pub texture_x: u64,
}

/// The outcome of one cast: a wall hit, or the ray leaving the grid.
pub enum CastResult {
    Hit(Intersect),
    Miss,
}

/// How far a ray that has traveled `d` has moved along one axis:
/// `d * mag / SCALE` fixed-point units, `mag` being that axis's component
/// of the direction.
pub open spec fn spec_off(mag: int, d: int) -> int {
    d * mag / (SCALE as int)
}

/// The sample's x coordinate after traveling `d` from the player.
pub open spec fn sample_x(player: Player, dir: Direction, d: int) -> int {
    if dir.x_neg {
        player.pos_x - spec_off(dir.x_mag as int, d)
    } else {
        player.pos_x + spec_off(dir.x_mag as int, d)
    }
}

/// The sample's y coordinate after traveling `d` from the player.
pub open spec fn sample_y(player: Player, dir: Direction, d: int) -> int {
    if dir.y_neg {
        player.pos_y - spec_off(dir.y_mag as int, d)
    } else {
        player.pos_y + spec_off(dir.y_mag as int, d)
    }
}

/// The grid column the sample at distance `d` falls in.
pub open spec fn sample_cell_i(player: Player, dir: Direction, block: int, d: int) -> int {
    sample_x(player, dir, d) / (block * (SCALE as int))
}

/// The grid row the sample at distance `d` falls in.
pub open spec fn sample_cell_j(player: Player, dir: Direction, block: int, d: int) -> int {
    sample_y(player, dir, d) / (block * (SCALE as int))
}

/// The sample at distance `d` lies inside the grid.
pub open spec fn sample_in_grid(
    grid: Grid,
    player: Player,
    dir: Direction,
    block: int,
    d: int,
) -> bool {
    &&& 0 <= sample_x(player, dir, d)
    &&& 0 <= sample_y(player, dir, d)
    &&& sample_cell_i(player, dir, block, d) < grid.spec_width()
    &&& sample_cell_j(player, dir, block, d) < grid.spec_height()
}

/// The code of the cell the sample at distance `d` falls in.
pub open spec fn sample_code(grid: Grid, player: Player, dir: Direction, block: int, d: int) -> char {
    grid.cell_at(sample_cell_i(player, dir, block, d), sample_cell_j(player, dir, block, d))
}

/// The sample at distance `d` is inside the grid, on traversable ground.
pub open spec fn sample_empty(
    grid: Grid,
    player: Player,
    dir: Direction,
    block: int,
    d: int,
) -> bool {
    sample_in_grid(grid, player, dir, block, d) && sample_code(grid, player, dir, block, d)
        == EMPTY_CELL
}

/// The sample at distance `d` is inside the grid, in a wall cell.
pub open spec fn sample_wall(
    grid: Grid,
    player: Player,
    dir: Direction,
    block: int,
    d: int,
) -> bool {
    sample_in_grid(grid, player, dir, block, d) && sample_code(grid, player, dir, block, d)
        != EMPTY_CELL
}

/// The texture-x coordinate derived at the sample of distance `d`, exactly
/// as the marcher computes it: a sample whose y coordinate is a multiple
/// of the block edge counts as a horizontal-face hit and reads its
/// coordinate from x, any other from y — a coarse face classifier inherent
/// to fixed-step marching, not exact face geometry. Either way the
/// coordinate is the position within the cell edge, normalized to
/// `[0, SCALE)`.
pub open spec fn spec_texture_x(player: Player, dir: Direction, block: int, d: int) -> int {
    let bfp = block * (SCALE as int);
    let x = sample_x(player, dir, d);
    let y = sample_y(player, dir, d);
    if y % bfp == 0 {
        (x % bfp) * (SCALE as int) / bfp
    } else {
        (y % bfp) * (SCALE as int) / bfp
    }
}

/// The sample at step number `m` is traversable.
pub open spec fn step_empty(
    grid: Grid,
    player: Player,
    dir: Direction,
    block: int,
    step: int,
    m: int,
) -> bool {
    sample_empty(grid, player, dir, block, m * step)
}

/// The sample at step number `m` is a wall cell.
pub open spec fn step_wall(
    grid: Grid,
    player: Player,
    dir: Direction,
    block: int,
    step: int,
    m: int,
) -> bool {
    sample_wall(grid, player, dir, block, m * step)
}

/// The sample at step number `m` lies outside the grid.
pub open spec fn step_outside(
    grid: Grid,
    player: Player,
    dir: Direction,
    block: int,
    step: int,
    m: int,
) -> bool {
    !sample_in_grid(grid, player, dir, block, m * step)
}

/// Step `m`'s sample lies on traversable ground inside the grid, and its
/// world coordinate rounds to the pixel whose row-major index in a buffer
/// `w` pixels wide is `n`: exactly the pixels the debug ray plots.
pub open spec fn step_plots_pixel(
    grid: Grid,
    player: Player,
    dir: Direction,
    block: int,
    step: int,
    w: int,
    m: int,
    n: int,
) -> bool {
    &&& 0 <= m
    &&& step_empty(grid, player, dir, block, step, m)
    &&& n == rm_index(
        w,
        sample_x(player, dir, m * step) / (SCALE as int),
        sample_y(player, dir, m * step) / (SCALE as int),
    )
}

/// Every sample strictly before step `k` is traversable ground.
pub open spec fn prefix_empty(
    grid: Grid,
    player: Player,
    dir: Direction,
    block: int,
    step: int,
    k: int,
) -> bool {
    forall|m: int| 0 <= m < k ==> #[trigger] step_empty(grid, player, dir, block, step, m)
}

/// What one cast returns: a hit carries the distance of the first sample
/// that lands in a wall cell, that cell's code and the texture coordinate
/// derived there, every earlier sample being traversable; a miss means the
/// marcher reached a sample outside the grid, within four times the
/// grid's Manhattan diagonal of travel, with every earlier sample
/// traversable.
pub open spec fn cast_post(
    grid: Grid,
    player: Player,
    dir: Direction,
    block: int,
    step: int,
    r: CastResult,
) -> bool {
    match r {
        CastResult::Hit(hit) => (exists|k: int|
            {
                &&& 0 <= k
                &&& #[trigger] step_wall(grid, player, dir, block, step, k)
                &&& prefix_empty(grid, player, dir, block, step, k)
                &&& hit.distance == k * step
                &&& hit.impact == sample_code(grid, player, dir, block, k * step)
                &&& hit.texture_x == spec_texture_x(player, dir, block, k * step)
            }),
        CastResult::Miss => (exists|k: int|
            {
                &&& 0 <= k
                &&& k * step <= ((grid.spec_width() + grid.spec_height()) * block * (
                SCALE as int) + 1) * 4 + step
                &&& #[trigger] step_outside(grid, player, dir, block, step, k)
                &&& prefix_empty(grid, player, dir, block, step, k)
            }),
    }
}

/// Step `k` is where a cast along this ray stops with a hit: the first
/// sample in a wall cell, every earlier sample traversable. For given
/// inputs at most one step satisfies this.
pub open spec fn cast_hits_at(
    grid: Grid,
    player: Player,
    dir: Direction,
    block: int,
    step: int,
    k: int,
) -> bool {
    &&& 0 <= k
    &&& step_wall(grid, player, dir, block, step, k)
    &&& prefix_empty(grid, player, dir, block, step, k)
}

/// Some step along this ray stops with a hit.
pub open spec fn ray_hits(grid: Grid, player: Player, dir: Direction, block: int, step: int) -> bool {
    exists|k: int| #[trigger] cast_hits_at(grid, player, dir, block, step, k)
}

/// What a cast's contract determines, step by step: at the unique hit
/// step — if one exists — the result is a hit carrying that step's
/// distance, cell code and texture coordinate; if no step hits, the
/// result cannot be a hit, and a miss can only happen when no step hits.
pub proof fn lemma_cast_post_characterizes(
    grid: Grid,
    player: Player,
    dir: Direction,
    block: int,
    step: int,
    r: CastResult,
)
    requires
        1 <= step,
        cast_post(grid, player, dir, block, step, r),
    ensures
        forall|k: int|
            #[trigger] cast_hits_at(grid, player, dir, block, step, k) ==> (r matches
            CastResult::Hit(hit) && hit.distance == k * step && hit.impact == sample_code(
                grid,
                player,
                dir,
                block,
                k * step,
            ) && hit.texture_x == spec_texture_x(player, dir, block, k * step)),
        r matches CastResult::Miss ==> forall|k: int|
            !(#[trigger] cast_hits_at(grid, player, dir, block, step, k)),
{
    match r {
        CastResult::Hit(hit) => {
            let k0 = choose|k: int|
                {
                    &&& 0 <= k
                    &&& #[trigger] step_wall(grid, player, dir, block, step, k)
                    &&& prefix_empty(grid, player, dir, block, step, k)
                    &&& hit.distance == k * step
                    &&& hit.impact == sample_code(grid, player, dir, block, k * step)
                    &&& hit.texture_x == spec_texture_x(player, dir, block, k * step)
                };
            assert forall|k: int|
                #[trigger] cast_hits_at(grid, player, dir, block, step, k) implies (hit.distance
                == k * step && hit.impact == sample_code(grid, player, dir, block, k * step)
                && hit.texture_x == spec_texture_x(player, dir, block, k * step)) by {
                if k < k0 {
                    assert(step_empty(grid, player, dir, block, step, k));
                    assert(false);
                }
                if k > k0 {
                    assert(step_empty(grid, player, dir, block, step, k0));
                    assert(false);
                }
            }
        },
        CastResult::Miss => {
            let k0 = choose|k: int|
                {
                    &&& 0 <= k
                    &&& #[trigger] step_outside(grid, player, dir, block, step, k)
                    &&& prefix_empty(grid, player, dir, block, step, k)
                };
            assert forall|k: int|
                !(#[trigger] cast_hits_at(grid, player, dir, block, step, k)) by {
                if cast_hits_at(grid, player, dir, block, step, k) {
                    if k < k0 {
                        assert(step_empty(grid, player, dir, block, step, k));
                    } else if k > k0 {
                        assert(step_empty(grid, player, dir, block, step, k0));
                    }
                    assert(false);
                }
            }
        },
    }
}

/// A cast's distance is accurate to one step. Suppose a wall lies at
/// world distance `d0` along the ray: every sample strictly closer than
/// `d0` is traversable, and the first sample at or past `d0` — step
/// number `k0` — is in a wall cell. Then any result the cast's contract
/// allows is a hit whose distance lies within one `step` of `d0`.
pub proof fn lemma_cast_distance_near_wall(
    grid: Grid,
    player: Player,
    dir: Direction,
    block: int,
    step: int,
    d0: int,
    k0: int,
    r: CastResult,
)
    requires
        1 <= step,
        0 <= d0,
        0 <= k0,
        k0 * step >= d0,
        k0 > 0 ==> (k0 - 1) * step < d0,
        forall|m: int|
            0 <= m && m * step < d0 ==> #[trigger] step_empty(grid, player, dir, block, step, m),
        step_wall(grid, player, dir, block, step, k0),
        cast_post(grid, player, dir, block, step, r),
    ensures
        (r matches CastResult::Hit(hit) && d0 <= hit.distance < d0 + step),
{
    match r {
        CastResult::Hit(hit) => {
            let k = choose|k: int|
                {
                    &&& 0 <= k
                    &&& #[trigger] step_wall(grid, player, dir, block, step, k)
                    &&& prefix_empty(grid, player, dir, block, step, k)
                    &&& hit.distance == k * step
                    &&& hit.impact == sample_code(grid, player, dir, block, k * step)
                    &&& hit.texture_x == spec_texture_x(player, dir, block, k * step)
                };
            if k < k0 {
                assert(k * step < d0) by (nonlinear_arith)
                    requires
                        0 <= k <= k0 - 1,
                        1 <= step,
                        k0 > 0 ==> (k0 - 1) * step < d0,
                        k0 > 0,
                ;
                assert(step_empty(grid, player, dir, block, step, k));
                assert(false);
            }
            if k > k0 {
                assert(step_empty(grid, player, dir, block, step, k0));
                assert(false);
            }
            assert(k0 * step < d0 + step) by (nonlinear_arith)
                requires
                    1 <= step,
                    0 <= d0,
                    k0 > 0 ==> (k0 - 1) * step < d0,
                    0 <= k0,
                    k0 * step >= d0,
            ;
        },
        CastResult::Miss => {
            let k = choose|k: int|
                {
                    &&& 0 <= k
                    &&& #[trigger] step_outside(grid, player, dir, block, step, k)
                    &&& prefix_empty(grid, player, dir, block, step, k)
                };
            if k < k0 {
                assert(k * step < d0) by (nonlinear_arith)
                    requires
                        0 <= k <= k0 - 1,
                        1 <= step,
                        k0 > 0 ==> (k0 - 1) * step < d0,
                        k0 > 0,
                ;
                assert(step_empty(grid, player, dir, block, step, k));
                assert(false);
            }
            if k > k0 {
                assert(step_empty(grid, player, dir, block, step, k0));
                assert(false);
            }
            assert(false);
        },
    }
}

/// A ray that has traveled at least `(limit + 1) * 4` along a direction
/// whose axis component is at least a quarter unit has moved more than
/// `limit` fixed-point units along that axis.
proof fn lemma_march_exit(d: int, mag: int, limit: int)
    by (nonlinear_arith)
    requires
        256 <= mag,
        0 <= limit,
        d >= (limit + 1) * 4,
        SCALE == 1024,
    ensures
        d * mag / (SCALE as int) >= limit + 1,
{
}

/// A nonnegative coordinate at or beyond `n` cells' worth of fixed-point
/// units falls in cell `n` or later.
proof fn lemma_at_or_beyond(x: int, n: int, bfp: int)
    by (nonlinear_arith)
    requires
        0 < bfp,
        0 <= n,
        x >= n * bfp,
    ensures
        x / bfp >= n,
{
}

/// A position within a cell edge, scaled to `SCALE`, normalizes to
/// `[0, SCALE)`.
proof fn lemma_tex_bound(m: int, bfp: int)
    by (nonlinear_arith)
    requires
        0 <= m < bfp,
        0 < bfp,
        SCALE == 1024,
    ensures
        0 <= m * (SCALE as int) / bfp < (SCALE as int),
{
}

/// March a ray from the player's position along `dir`, accumulating
/// distance in increments of `step_size`, until the sample leaves the grid
/// (`Miss`) or lands in a wall cell (`Hit`). The march always terminates:
/// one direction component covers at least a quarter unit per unit
/// traveled, so the sample leaves the grid within four times the grid's
/// Manhattan diagonal — a hit's distance is bounded by that in the
/// contract, so the march takes at most that distance over `step_size`
/// many steps.
///
/// The draw color is left at the debug-ray color. With `draw_line` the
/// traversed samples are also plotted into the framebuffer in that color,
/// purely as a visualization: the pixels are otherwise untouched and the
/// returned result does not depend on it.
#[verifier::loop_isolation(false)]
pub fn cast_ray3d(
    framebuffer: &mut Framebuffer,
    maze: &Grid,
    player: &Player,
    dir: &Direction,
    block_size: usize,
    step_size: u64,
    draw_line: bool,
) -> (r: CastResult)
    requires
        old(framebuffer).wf(),
        maze.wf(),
        dir.wf(),
        1 <= block_size <= MAX_BLOCK_SIZE,
        1 <= step_size <= 0x1_0000_0000,
        (player.pos_x as int) < maze.spec_width() * (block_size as int) * (SCALE as int),
        (player.pos_y as int) < maze.spec_height() * (block_size as int) * (SCALE as int),
    ensures
        cast_post(*maze, *player, *dir, block_size as int, step_size as int, r),
        (r matches CastResult::Hit(hit) ==> 0 <= hit.texture_x < SCALE),
        (r matches CastResult::Hit(hit) ==> (hit.distance as int) <= ((maze.spec_width()
            + maze.spec_height()) * (block_size as int) * (SCALE as int) + 1) * 4 + (
        step_size as int)),
        final(framebuffer).wf(),
        final(framebuffer).spec_width() == old(framebuffer).spec_width(),
        final(framebuffer).spec_height() == old(framebuffer).spec_height(),
        final(framebuffer).spec_background() == old(framebuffer).spec_background(),
        final(framebuffer).spec_color() == 0xFFDDDD,
        !draw_line ==> final(framebuffer).pixels() == old(framebuffer).pixels(),
        forall|n: int|
            0 <= n < old(framebuffer).pixels().len() ==> (#[trigger] final(framebuffer).pixels()[n]
                == old(framebuffer).pixels()[n] || final(framebuffer).pixels()[n] == 0xFFDDDD),
        forall|n: int|
            0 <= n < old(framebuffer).pixels().len() && #[trigger] final(framebuffer).pixels()[n]
                != old(framebuffer).pixels()[n] ==> (exists|m: int|
                #[trigger] step_plots_pixel(
                    *maze,
                    *player,
                    *dir,
                    block_size as int,
                    step_size as int,
                    old(framebuffer).spec_width(),
                    m,
                    n,
                )),
{
    framebuffer.set_current_color(0xFFDDDD);
    let ghost block = block_size as int;
    let ghost step = step_size as int;
    let block_fp: u64 = (block_size as u64) * SCALE;
    let width_u: usize = maze.width();
    let height_u: usize = maze.height();
    proof {
        assert((width_u as int) * (block_fp as int) <= 0x4_0000_0000) by (nonlinear_arith)
            requires
                width_u <= 4096,
                block_fp <= 0x40_0000,
        ;
        assert((height_u as int) * (block_fp as int) <= 0x4_0000_0000) by (nonlinear_arith)
            requires
                height_u <= 4096,
                block_fp <= 0x40_0000,
        ;
    }
    let w_fp: u64 = (width_u as u64) * block_fp;
    let h_fp: u64 = (height_u as u64) * block_fp;
    proof {
        assert((player.pos_x as int) < (w_fp as int)) by (nonlinear_arith)
            requires
                (player.pos_x as int) < maze.spec_width() * (block_size as int) * (SCALE as int),
                w_fp == (width_u as int) * (block_fp as int),
                block_fp == (block_size as int) * (SCALE as int),
                width_u == maze.spec_width(),
        ;
        assert((player.pos_y as int) < (h_fp as int)) by (nonlinear_arith)
            requires
                (player.pos_y as int) < maze.spec_height() * (block_size as int) * (SCALE as int),
                h_fp == (height_u as int) * (block_fp as int),
                block_fp == (block_size as int) * (SCALE as int),
                height_u == maze.spec_height(),
        ;
    }
    let limit: u64 = w_fp + h_fp;
    let d_exit: u64 = (limit + 1) * 4;
    proof {
        assert((limit as int) == (maze.spec_width() + maze.spec_height()) * (block_size as int) * (
        SCALE as int)) by (nonlinear_arith)
            requires
                limit == (w_fp as int) + (h_fp as int),
                w_fp == (width_u as int) * (block_fp as int),
                h_fp == (height_u as int) * (block_fp as int),
                block_fp == (block_size as int) * (SCALE as int),
                width_u == maze.spec_width(),
                height_u == maze.spec_height(),
        ;
    }
    let mut d: u64 = 0;
    let ghost mut k: int = 0;
    loop
        invariant
            framebuffer.wf(),
            framebuffer.spec_width() == old(framebuffer).spec_width(),
            framebuffer.spec_height() == old(framebuffer).spec_height(),
            framebuffer.spec_background() == old(framebuffer).spec_background(),
            framebuffer.spec_color() == 0xFFDDDD,
            !draw_line ==> framebuffer.pixels() == old(framebuffer).pixels(),
            forall|n: int|
                0 <= n < old(framebuffer).pixels().len() ==> (#[trigger] framebuffer.pixels()[n]
                    == old(framebuffer).pixels()[n] || (framebuffer.pixels()[n] == 0xFFDDDD && (
                exists|m: int|
                    #[trigger] step_plots_pixel(
                        *maze,
                        *player,
                        *dir,
                        block,
                        step,
                        old(framebuffer).spec_width(),
                        m,
                        n,
                    )))),
            0 <= k,
            d == k * step,
            d < d_exit + step_size,
            prefix_empty(*maze, *player, *dir, block, step, k),
        decreases d_exit + step_size - d,
    {
        proof {
            assert((d as int) * (dir.x_mag as int) <= 0x100_0000_0000_0000) by (nonlinear_arith)
                requires
                    d <= 0x4000_0000_0000,
                    dir.x_mag <= 1024,
            ;
            assert((d as int) * (dir.y_mag as int) <= 0x100_0000_0000_0000) by (nonlinear_arith)
                requires
                    d <= 0x4000_0000_0000,
                    dir.y_mag <= 1024,
            ;
        }
        let off_x: u64 = d * dir.x_mag / SCALE;
        let off_y: u64 = d * dir.y_mag / SCALE;
        let sx: u64;
        if dir.x_neg {
            if off_x > player.pos_x {
                proof {
                    assert(step_outside(*maze, *player, *dir, block, step, k));
                }
                return CastResult::Miss;
            }
            sx = player.pos_x - off_x;
        } else {
            sx = player.pos_x + off_x;
        }
        let sy: u64;
        if dir.y_neg {
            if off_y > player.pos_y {
                proof {
                    assert(step_outside(*maze, *player, *dir, block, step, k));
                }
                return CastResult::Miss;
            }
            sy = player.pos_y - off_y;
        } else {
            sy = player.pos_y + off_y;
        }
        let i_u: u64 = sx / block_fp;
        let j_u: u64 = sy / block_fp;
        if i_u >= width_u as u64 || j_u >= height_u as u64 {
            proof {
                assert(step_outside(*maze, *player, *dir, block, step, k));
            }
            return CastResult::Miss;
        }
        let c = maze.cell(i_u as usize, j_u as usize);
        if c != EMPTY_CELL {
            let x_mod = sx % block_fp;
            let y_mod = sy % block_fp;
            let tex: u64 = if y_mod == 0 {
                x_mod * SCALE / block_fp
            } else {
                y_mod * SCALE / block_fp
            };
            proof {
                lemma_tex_bound(x_mod as int, block_fp as int);
                lemma_tex_bound(y_mod as int, block_fp as int);
                assert(step_wall(*maze, *player, *dir, block, step, k));
            }
            return CastResult::Hit(Intersect { distance: d, impact: c, texture_x: tex });
        }
        if draw_line {
            proof {
                lemma_pos_in_extent(sx as int, block_fp as int, width_u as int, block_size as int);
                lemma_pos_in_extent(sy as int, block_fp as int, height_u as int, block_size as int);
            }
            let px = (sx / SCALE) as usize;
            let py = (sy / SCALE) as usize;
            let ghost fb_pre = *framebuffer;
            proof {
                assert(step_empty(*maze, *player, *dir, block, step, k));
            }
            framebuffer.point(px, py);
            proof {
                assert forall|n: int| 0 <= n < old(framebuffer).pixels().len() implies (
                #[trigger] framebuffer.pixels()[n] == old(framebuffer).pixels()[n]
                    || (framebuffer.pixels()[n] == 0xFFDDDD && (exists|m: int|
                    #[trigger] step_plots_pixel(
                        *maze,
                        *player,
                        *dir,
                        block,
                        step,
                        old(framebuffer).spec_width(),
                        m,
                        n,
                    )))) by {
                    let idx = fb_pre.pixel_index(px as int, py as int);
                    if fb_pre.in_bounds(px as int, py as int) && n != idx {
                        crate::framebuffer::lemma_pixel_index_in_range(
                            fb_pre.spec_width(),
                            fb_pre.spec_height(),
                            px as int,
                            py as int,
                        );
                        assert(framebuffer.pixels()[n] == fb_pre.pixels()[n]);
                    }
                    if framebuffer.pixels()[n] != old(framebuffer).pixels()[n] {
                        if fb_pre.in_bounds(px as int, py as int) && n == idx {
                            assert(idx == rm_index(
                                old(framebuffer).spec_width(),
                                px as int,
                                py as int,
                            ));
                            assert(px as int == sample_x(*player, *dir, k * step) / (SCALE as int));
                            assert(py as int == sample_y(*player, *dir, k * step) / (SCALE as int));
                            assert(step_plots_pixel(
                                *maze,
                                *player,
                                *dir,
                                block,
                                step,
                                old(framebuffer).spec_width(),
                                k,
                                n,
                            ));
                        } else {
                            assert(framebuffer.pixels()[n] == fb_pre.pixels()[n]);
                            let m0 = choose|m: int|
                                #[trigger] step_plots_pixel(
                                    *maze,
                                    *player,
                                    *dir,
                                    block,
                                    step,
                                    old(framebuffer).spec_width(),
                                    m,
                                    n,
                                );
                            assert(step_plots_pixel(
                                *maze,
                                *player,
                                *dir,
                                block,
                                step,
                                old(framebuffer).spec_width(),
                                m0,
                                n,
                            ));
                        }
                    }
                }
            }
        }
        proof {
            // Past every boundary check, this sample is traversable, which
            // also bounds the distance: beyond `d_exit` a check would have
            // returned `Miss`.
            assert(step_empty(*maze, *player, *dir, block, step, k));
            assert forall|m: int| 0 <= m < k + 1 implies #[trigger] step_empty(
                *maze,
                *player,
                *dir,
                block,
                step,
                m,
            ) by {
                if m < k {
                    assert(step_empty(*maze, *player, *dir, block, step, m));
                }
            }
            if d >= d_exit {
                if dir.x_mag >= 256 {
                    lemma_march_exit(d as int, dir.x_mag as int, limit as int);
                    if !dir.x_neg {
                        lemma_at_or_beyond(sx as int, width_u as int, block_fp as int);
                    }
                } else {
                    lemma_march_exit(d as int, dir.y_mag as int, limit as int);
                    if !dir.y_neg {
                        lemma_at_or_beyond(sy as int, height_u as int, block_fp as int);
                    }
                }
                assert(false);
            }
            assert((k + 1) * step == k * step + step) by (nonlinear_arith);
            k = k + 1;
        }
        d = d + step_size;
    }
}

} // verus!

//! The top-down debug ray: the same march as the first-person cast, but
//! run for its visualization alone, plotting every traversed sample into
//! the framebuffer.

use vstd::prelude::*;

use crate::framebuffer::Framebuffer;
use crate::grid::Grid;
use crate::intersect::cast_ray3d;
use crate::player::Player;
use crate::units::Direction;
use crate::units::MAX_BLOCK_SIZE;
use crate::units::SCALE;

verus! {

/// March a ray from the player's position along `dir` and plot each
/// traversed sample in the debug-ray color, stopping at the first wall
/// cell or on leaving the grid. A pixel changes only to that color, and
/// only at the rounded world coordinate of a traversed in-grid empty
/// sample — never at the hit cell or outside the grid; the dimensions and
/// background are untouched.
pub fn cast_ray(
    framebuffer: &mut Framebuffer,
    maze: &Grid,
    player: &Player,
    dir: &Direction,
    block_size: usize,
    step_size: u64,
)
    requires
        old(framebuffer).wf(),
        maze.wf(),
        dir.wf(),
        1 <= block_size <= MAX_BLOCK_SIZE,
        1 <= step_size <= 0x1_0000_0000,
        (player.pos_x as int) < maze.spec_width() * (block_size as int) * (SCALE as int),
        (player.pos_y as int) < maze.spec_height() * (block_size as int) * (SCALE as int),
    ensures
        final(framebuffer).wf(),
        final(framebuffer).spec_width() == old(framebuffer).spec_width(),
        final(framebuffer).spec_height() == old(framebuffer).spec_height(),
        final(framebuffer).spec_background() == old(framebuffer).spec_background(),
        final(framebuffer).spec_color() == 0xFFDDDD,
        forall|n: int|
            0 <= n < old(framebuffer).pixels().len() ==> (#[trigger] final(framebuffer).pixels()[n]
                == old(framebuffer).pixels()[n] || final(framebuffer).pixels()[n] == 0xFFDDDD),
        forall|n: int|
            0 <= n < old(framebuffer).pixels().len() && #[trigger] final(framebuffer).pixels()[n]
                != old(framebuffer).pixels()[n] ==> (exists|m: int|
                #[trigger] crate::intersect::step_plots_pixel(
                    *maze,
                    *player,
                    *dir,
                    block_size as int,
                    step_size as int,
                    old(framebuffer).spec_width(),
                    m,
                    n,
                )),
{
    let _ = cast_ray3d(framebuffer, maze, player, dir, block_size, step_size, true);
}

} // verus!

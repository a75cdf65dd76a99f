//! The player's pose and the collision-aware movement integrator.
//!
//! A frame's input is first reduced to a normalized [`Intent`]; the
//! integrator then commits all rotation, and moves the position along the
//! supplied heading vector only when the target cell is traversable. A
//! candidate position whose cell lies outside the grid counts as
//! non-traversable, never as an out-of-range lookup.

use vstd::prelude::*;

use crate::grid::EMPTY_CELL;
use crate::grid::Grid;
use crate::units::Direction;
use crate::units::MAX_BLOCK_SIZE;
use crate::units::SCALE;

verus! {

/// World units moved per frame by a whole forward intent.
pub const MOVE_SPEED: u64 = 7;

/// Fixed-point radians turned per frame by a whole turn key or a whole
/// stick deflection (about a fiftieth of a half turn).
pub const ROTATION_SPEED: u64 = 64;

/// Fixed-point radians turned per pixel of pointer travel.
pub const MOUSE_SENSITIVITY: u64 = 5;

/// Largest accepted forward intent magnitude: sixteen whole steps.
pub const MAX_FORWARD_INTENT: i64 = 16384;

/// Largest accepted turn magnitude per frame, in fixed-point radians.
pub const MAX_TURN_INTENT: i64 = 0x10_0000;

/// Bound on the heading accumulator, far beyond any session's turning.
pub const MAX_HEADING: i64 = 0x7FFF_FFFF_FFFF;

/// The player's pose: fixed-point world position, heading angle and field
/// of view (both in fixed-point radians). The position is only ever mutated
/// by [`Player::integrate`], which keeps it inside a traversable cell.
pub struct Player {
    pub pos_x: u64,
    pub pos_y: u64,
    pub a: i64,
    pub fov: i64,
}

/// The normalized per-frame movement intent, aggregated from every input
/// source: a signed forward magnitude (scaled by [`SCALE`], one whole key
/// press being `SCALE`) and a signed turn in fixed-point radians.
pub struct Intent {
    pub forward: i64,
    pub turn: i64,
}

/// The displacement one axis contributes, in fixed-point world units:
/// `MOVE_SPEED * dir * forward / SCALE`, rounded toward zero, where `dir`
/// is the axis component of the heading vector given as sign and magnitude.
pub open spec fn spec_displacement(dir_neg: bool, dir_mag: int, forward: int) -> int {
    let fmag = if forward >= 0 {
        forward
    } else {
        -forward
    };
    let mag = ((MOVE_SPEED as int) * dir_mag * fmag) / (SCALE as int);
    if dir_neg != (forward < 0) {
        -mag
    } else {
        mag
    }
}

/// The grid cell index that a fixed-point world coordinate falls in.
pub open spec fn spec_cell_of(pos: int, block: int) -> int {
    pos / (block * (SCALE as int))
}

/// The candidate position `(cx, cy)` may be committed: the cell containing
/// it exists and is traversable. A candidate outside the grid (including a
/// negative coordinate) is simply not traversable.
pub open spec fn spec_can_move(grid: Grid, block: int, cx: int, cy: int) -> bool {
    grid.is_empty_at(spec_cell_of(cx, block), spec_cell_of(cy, block))
}

impl Intent {
    /// No movement and no turning.
    pub open spec fn is_zero(self) -> bool {
        self.forward == 0 && self.turn == 0
    }

    /// Aggregate one frame's inputs into a normalized intent.
    ///
    /// Keys and pad buttons each contribute a whole step or turn; the pad
    /// sticks contribute proportionally to their fixed-point deflection in
    /// `[-SCALE, SCALE]`; the pointer contributes its frame-to-frame
    /// horizontal travel, computed here from the last seen position.
    pub fn from_inputs(
        key_forward: bool,
        key_backward: bool,
        key_turn_left: bool,
        key_turn_right: bool,
        pad_forward: bool,
        pad_backward: bool,
        stick_turn: i64,
        stick_forward: i64,
        mouse_x: i64,
        last_mouse_x: i64,
    ) -> (intent: Intent)
        requires
            -(SCALE as i64) <= stick_turn <= (SCALE as i64),
            -(SCALE as i64) <= stick_forward <= (SCALE as i64),
            -65536 <= mouse_x <= 65536,
            -65536 <= last_mouse_x <= 65536,
        ensures
            intent.forward == (if key_forward {
                SCALE as int
            } else {
                0
            }) - (if key_backward {
                SCALE as int
            } else {
                0
            }) + (if pad_forward {
                SCALE as int
            } else {
                0
            }) - (if pad_backward {
                SCALE as int
            } else {
                0
            }) + stick_forward,
            intent.turn == (if key_turn_right {
                ROTATION_SPEED as int
            } else {
                0
            }) - (if key_turn_left {
                ROTATION_SPEED as int
            } else {
                0
            }) + spec_stick_turn(stick_turn as int) + (mouse_x - last_mouse_x) * (
            MOUSE_SENSITIVITY as int),
            -MAX_FORWARD_INTENT <= intent.forward <= MAX_FORWARD_INTENT,
            -MAX_TURN_INTENT <= intent.turn <= MAX_TURN_INTENT,
    {
        let mut forward: i64 = stick_forward;
        if key_forward {
            forward = forward + SCALE as i64;
        }
        if key_backward {
            forward = forward - SCALE as i64;
        }
        if pad_forward {
            forward = forward + SCALE as i64;
        }
        if pad_backward {
            forward = forward - SCALE as i64;
        }
        let stick: i64 = if stick_turn >= 0 {
            ((stick_turn as u64) * ROTATION_SPEED / SCALE) as i64
        } else {
            -((((-stick_turn) as u64) * ROTATION_SPEED / SCALE) as i64)
        };
        let mut turn: i64 = stick;
        if key_turn_right {
            turn = turn + ROTATION_SPEED as i64;
        }
        if key_turn_left {
            turn = turn - ROTATION_SPEED as i64;
        }
        turn = turn + (mouse_x - last_mouse_x) * MOUSE_SENSITIVITY as i64;
        Intent { forward, turn }
    }
}

/// The turn contribution of a stick deflection: `stick * ROTATION_SPEED /
/// SCALE`, rounded toward zero.
pub open spec fn spec_stick_turn(stick: int) -> int {
    if stick >= 0 {
        stick * (ROTATION_SPEED as int) / (SCALE as int)
    } else {
        -((-stick) * (ROTATION_SPEED as int) / (SCALE as int))
    }
}

impl Player {
    /// The grid column of the position.
    pub open spec fn cell_i(self, block: int) -> int {
        spec_cell_of(self.pos_x as int, block)
    }

    /// The grid row of the position.
    pub open spec fn cell_j(self, block: int) -> int {
        spec_cell_of(self.pos_y as int, block)
    }

    /// Pose validity: the position lies inside the grid, in a traversable
    /// cell.
    pub open spec fn pos_wf(self, grid: Grid, block: int) -> bool {
        grid.is_empty_at(self.cell_i(block), self.cell_j(block))
    }

    /// The candidate x position for an intent along a heading vector.
    pub open spec fn spec_candidate_x(self, intent: Intent, dir: Direction) -> int {
        self.pos_x + spec_displacement(dir.x_neg, dir.x_mag as int, intent.forward as int)
    }

    /// The candidate y position for an intent along a heading vector.
    pub open spec fn spec_candidate_y(self, intent: Intent, dir: Direction) -> int {
        self.pos_y + spec_displacement(dir.y_neg, dir.y_mag as int, intent.forward as int)
    }

    /// The heading after a frame's turn contributions: rotation is summed
    /// before any movement, so that movement issued in the same frame uses
    /// the final heading.
    pub fn final_heading(&self, intent: &Intent) -> (h: i64)
        requires
            -MAX_HEADING <= self.a <= MAX_HEADING,
            -MAX_TURN_INTENT <= intent.turn <= MAX_TURN_INTENT,
        ensures
            h == self.a + intent.turn,
    {
        self.a + intent.turn
    }

    /// The ray angle of one screen column, in fixed-point radians: the
    /// heading, offset across the field of view in proportion to the
    /// column's place on the screen.
    pub fn column_angle(&self, i: usize, width: usize) -> (a: i64)
        requires
            -MAX_HEADING <= self.a <= MAX_HEADING,
            0 <= self.fov <= 0x4000,
            1 <= width <= 65536,
            i < width,
        ensures
            a == self.a - self.fov / 2 + self.fov * (i as int) / (width as int),
    {
        proof {
            assert((self.fov as int) * (i as int) <= 0x4000_0000) by (nonlinear_arith)
                requires
                    0 <= self.fov <= 0x4000,
                    0 <= i < 65536,
            ;
            assert(0 <= (self.fov as int) * (i as int) / (width as int)) by (nonlinear_arith)
                requires
                    0 <= (self.fov as int) * (i as int),
                    1 <= width,
            ;
        }
        self.a - self.fov / 2 + self.fov * (i as i64) / (width as i64)
    }

    /// Integrate one frame of movement.
    ///
    /// All rotation is committed first, unconditionally; `dir` must be the
    /// fixed-point unit vector of the resulting heading, supplied by the
    /// caller. The position then moves by `MOVE_SPEED * forward / SCALE`
    /// world units along `dir`, but only if the cell containing the whole
    /// candidate position is traversable; otherwise the position is
    /// unchanged (no wall sliding). A zero intent leaves the pose exactly
    /// as it was, and the pose never ends inside a wall cell.
    pub fn integrate(&mut self, intent: &Intent, dir: &Direction, maze: &Grid, block_size: usize)
        requires
            maze.wf(),
            dir.wf(),
            1 <= block_size <= MAX_BLOCK_SIZE,
            old(self).pos_wf(*maze, block_size as int),
            -MAX_HEADING <= old(self).a <= MAX_HEADING,
            -MAX_TURN_INTENT <= intent.turn <= MAX_TURN_INTENT,
            -MAX_FORWARD_INTENT <= intent.forward <= MAX_FORWARD_INTENT,
        ensures
            final(self).fov == old(self).fov,
            final(self).a == old(self).a + intent.turn,
            ({
                let cx = old(self).spec_candidate_x(*intent, *dir);
                let cy = old(self).spec_candidate_y(*intent, *dir);
                if spec_can_move(*maze, block_size as int, cx, cy) {
                    final(self).pos_x == cx && final(self).pos_y == cy
                } else {
                    final(self).pos_x == old(self).pos_x && final(self).pos_y == old(self).pos_y
                }
            }),
            intent.forward == 0 ==> final(self).pos_x == old(self).pos_x && final(self).pos_y
                == old(self).pos_y,
            intent.is_zero() ==> *final(self) == *old(self),
            final(self).pos_wf(*maze, block_size as int),
    {
        let block_fp: u64 = (block_size as u64) * SCALE;
        let fwd_neg = intent.forward < 0;
        let fmag: u64 = if fwd_neg {
            (-intent.forward) as u64
        } else {
            intent.forward as u64
        };
        proof {
            assert((MOVE_SPEED as int) * (dir.x_mag as int) * (fmag as int) <= 0x800_0000)
                by (nonlinear_arith)
                requires
                    MOVE_SPEED == 7,
                    dir.x_mag <= 1024,
                    fmag <= 16384,
            ;
            assert((MOVE_SPEED as int) * (dir.y_mag as int) * (fmag as int) <= 0x800_0000)
                by (nonlinear_arith)
                requires
                    MOVE_SPEED == 7,
                    dir.y_mag <= 1024,
                    fmag <= 16384,
            ;
        }
        let disp_x: u64 = MOVE_SPEED * dir.x_mag * fmag / SCALE;
        let disp_y: u64 = MOVE_SPEED * dir.y_mag * fmag / SCALE;
        proof {
            lemma_pos_in_extent(
                self.pos_x as int,
                block_fp as int,
                maze.spec_width(),
                MAX_BLOCK_SIZE as int,
            );
            lemma_pos_in_extent(
                self.pos_y as int,
                block_fp as int,
                maze.spec_height(),
                MAX_BLOCK_SIZE as int,
            );
        }
        let x_neg = if fwd_neg {
            !dir.x_neg
        } else {
            dir.x_neg
        };
        let y_neg = if fwd_neg {
            !dir.y_neg
        } else {
            dir.y_neg
        };
        let x_ok: bool;
        let cand_x: u64;
        if x_neg {
            if disp_x <= self.pos_x {
                cand_x = self.pos_x - disp_x;
                x_ok = true;
            } else {
                cand_x = 0;
                x_ok = false;
            }
        } else {
            cand_x = self.pos_x + disp_x;
            x_ok = true;
        }
        let y_ok: bool;
        let cand_y: u64;
        if y_neg {
            if disp_y <= self.pos_y {
                cand_y = self.pos_y - disp_y;
                y_ok = true;
            } else {
                cand_y = 0;
                y_ok = false;
            }
        } else {
            cand_y = self.pos_y + disp_y;
            y_ok = true;
        }
        let ghost scx = self.spec_candidate_x(*intent, *dir);
        let ghost scy = self.spec_candidate_y(*intent, *dir);
        proof {
            if intent.forward == 0 {
                assert((MOVE_SPEED as int) * (dir.x_mag as int) * 0 / (SCALE as int) == 0)
                    by (nonlinear_arith);
                assert((MOVE_SPEED as int) * (dir.y_mag as int) * 0 / (SCALE as int) == 0)
                    by (nonlinear_arith);
            }
            assert(x_ok ==> cand_x == scx);
            assert(y_ok ==> cand_y == scy);
            if !x_ok {
                lemma_neg_cell(scx, block_fp as int);
            }
            if !y_ok {
                lemma_neg_cell(scy, block_fp as int);
            }
        }
        if x_ok && y_ok {
            let ci = cand_x / block_fp;
            let cj = cand_y / block_fp;
            if ci < maze.width() as u64 && cj < maze.height() as u64 {
                if maze.cell(ci as usize, cj as usize) == EMPTY_CELL {
                    self.pos_x = cand_x;
                    self.pos_y = cand_y;
                }
            }
        }
        self.a = self.a + intent.turn;
    }
}

/// A nonnegative coordinate whose cell index is below `n` is itself below
/// `n` cells' worth of fixed-point units, and that extent is bounded.
pub proof fn lemma_pos_in_extent(x: int, bfp: int, n: int, bmax: int)
    by (nonlinear_arith)
    requires
        0 < bfp,
        0 <= x,
        x / bfp < n,
        n <= 4096,
        bfp <= bmax * (SCALE as int),
        bmax <= 4096,
    ensures
        x < n * bfp,
        x < 0x400_0000_0000,
{
}

/// A negative coordinate falls in a negative cell index.
pub proof fn lemma_neg_cell(x: int, bfp: int)
    by (nonlinear_arith)
    requires
        x < 0,
        0 < bfp,
    ensures
        x / bfp < 0,
{
}

} // verus!

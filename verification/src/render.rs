//! Rendering passes over the framebuffer: filled cell rectangles and the
//! top-down minimap, the scaled full-screen texture fill, the wall-stripe
//! projector, and the per-frame orchestration.

use vstd::prelude::*;

use crate::framebuffer::Framebuffer;
use crate::framebuffer::lemma_point_update;
use crate::framebuffer::rm_index;
use crate::grid::EMPTY_CELL;
use crate::grid::Grid;
use crate::intersect::CastResult;
use crate::intersect::Intersect;
use crate::intersect::cast_ray3d;
use crate::player::Player;
use crate::texture::Texture;
use crate::units::Direction;
use crate::units::MAX_BLOCK_SIZE;
use crate::units::MAX_SIDE;
use crate::units::SCALE;

verus! {

/// The draw color of filled minimap cells.
pub const CELL_COLOR: u32 = 0xFFFFFF;

/// `post` is `pre` with the rectangle `[x0, x1) x [y0, y1)` painted in
/// `color` and everything else untouched.
pub open spec fn rect_painted(
    pre: Framebuffer,
    post: Framebuffer,
    x0: int,
    y0: int,
    x1: int,
    y1: int,
    color: u32,
) -> bool {
    forall|px: int, py: int|
        #![trigger rm_index(pre.spec_width(), px, py)]
        pre.in_bounds(px, py) ==> post.pixels()[post.pixel_index(px, py)] == (if x0 <= px < x1 && y0
            <= py < y1 {
            color
        } else {
            pre.pixels()[pre.pixel_index(px, py)]
        })
}

/// Paint progress partway through a cell fill that walks columns `x0..`
/// and rows `y0..y1` within each column: columns before `x` are done, the
/// column `x` is done for rows before `y`, and nothing else has changed.
spec fn rect_partial(
    pre: Framebuffer,
    post: Framebuffer,
    x0: int,
    y0: int,
    y1: int,
    x: int,
    y: int,
    color: u32,
) -> bool {
    forall|px: int, py: int|
        #![trigger rm_index(pre.spec_width(), px, py)]
        pre.in_bounds(px, py) ==> post.pixels()[post.pixel_index(px, py)] == (if (x0 <= px < x && y0
            <= py < y1) || (px == x && y0 <= py < y) {
            color
        } else {
            pre.pixels()[pre.pixel_index(px, py)]
        })
}

/// The texture coordinate a screen coordinate scales to when a texture is
/// stretched over a whole framebuffer dimension.
pub open spec fn spec_scaled_coord(p: int, fb_dim: int, tex_dim: int) -> int {
    p * tex_dim / fb_dim
}

/// `post` is `pre` with the texture stretched over the whole buffer:
/// every pixel holds the sample of its scaled coordinates.
pub open spec fn texture_applied(pre: Framebuffer, post: Framebuffer, texture: Texture) -> bool {
    forall|px: int, py: int|
        #![trigger rm_index(pre.spec_width(), px, py)]
        pre.in_bounds(px, py) ==> post.pixels()[post.pixel_index(px, py)] == texture.pixel_at(
            spec_scaled_coord(px, pre.spec_width(), texture.spec_width()),
            spec_scaled_coord(py, pre.spec_height(), texture.spec_height()),
        )
}

/// Fill progress partway through the texture fill that walks columns and,
/// within the column `x`, rows up to `y`.
spec fn tex_partial(pre: Framebuffer, post: Framebuffer, texture: Texture, x: int, y: int) -> bool {
    forall|px: int, py: int|
        #![trigger rm_index(pre.spec_width(), px, py)]
        pre.in_bounds(px, py) ==> post.pixels()[post.pixel_index(px, py)] == (if px < x
            || (px == x && py < y) {
            texture.pixel_at(
                spec_scaled_coord(px, pre.spec_width(), texture.spec_width()),
                spec_scaled_coord(py, pre.spec_height(), texture.spec_height()),
            )
        } else {
            pre.pixels()[pre.pixel_index(px, py)]
        })
}

/// Scaling a coordinate that lies within one dimension onto another keeps
/// it within the other, and the product stays small.
proof fn lemma_scale_coord(p: int, fbd: int, td: int)
    by (nonlinear_arith)
    requires
        0 <= p < fbd,
        1 <= td,
        fbd <= 16384,
        td <= 16384,
    ensures
        0 <= p * td / fbd < td,
        p * td <= 0x1000_0000,
{
}

/// Stretch a texture over the whole framebuffer: every pixel receives the
/// sample of its proportionally scaled coordinates, and the draw color is
/// left at the last sample written.
pub fn apply_texture(framebuffer: &mut Framebuffer, texture: &Texture)
    requires
        old(framebuffer).wf(),
        texture.wf(),
    ensures
        final(framebuffer).wf(),
        final(framebuffer).spec_width() == old(framebuffer).spec_width(),
        final(framebuffer).spec_height() == old(framebuffer).spec_height(),
        final(framebuffer).spec_background() == old(framebuffer).spec_background(),
        texture_applied(*old(framebuffer), *final(framebuffer), *texture),
        final(framebuffer).spec_color() == texture.pixel_at(
            spec_scaled_coord(
                old(framebuffer).spec_width() - 1,
                old(framebuffer).spec_width(),
                texture.spec_width(),
            ),
            spec_scaled_coord(
                old(framebuffer).spec_height() - 1,
                old(framebuffer).spec_height(),
                texture.spec_height(),
            ),
        ),
{
    let w = framebuffer.width();
    let h = framebuffer.height();
    let tw = texture.width();
    let th = texture.height();
    let mut x: usize = 0;
    while x < w
        invariant
            framebuffer.wf(),
            framebuffer.spec_width() == old(framebuffer).spec_width(),
            framebuffer.spec_height() == old(framebuffer).spec_height(),
            framebuffer.spec_background() == old(framebuffer).spec_background(),
            w == old(framebuffer).spec_width(),
            h == old(framebuffer).spec_height(),
            tw == texture.spec_width(),
            th == texture.spec_height(),
            texture.wf(),
            x <= w,
            tex_partial(*old(framebuffer), *framebuffer, *texture, x as int, 0),
            x == 0 ==> framebuffer.spec_color() == old(framebuffer).spec_color(),
            x > 0 ==> framebuffer.spec_color() == texture.pixel_at(
                spec_scaled_coord(x - 1, w as int, tw as int),
                spec_scaled_coord(h - 1, h as int, th as int),
            ),
        decreases w - x,
    {
        let mut y: usize = 0;
        while y < h
            invariant
                framebuffer.wf(),
                framebuffer.spec_width() == old(framebuffer).spec_width(),
                framebuffer.spec_height() == old(framebuffer).spec_height(),
                framebuffer.spec_background() == old(framebuffer).spec_background(),
                w == old(framebuffer).spec_width(),
                h == old(framebuffer).spec_height(),
                tw == texture.spec_width(),
                th == texture.spec_height(),
                texture.wf(),
                x < w,
                y <= h,
                tex_partial(*old(framebuffer), *framebuffer, *texture, x as int, y as int),
                y == 0 && x == 0 ==> framebuffer.spec_color() == old(framebuffer).spec_color(),
                y == 0 && x > 0 ==> framebuffer.spec_color() == texture.pixel_at(
                    spec_scaled_coord(x - 1, w as int, tw as int),
                    spec_scaled_coord(h - 1, h as int, th as int),
                ),
                y > 0 ==> framebuffer.spec_color() == texture.pixel_at(
                    spec_scaled_coord(x as int, w as int, tw as int),
                    spec_scaled_coord(y - 1, h as int, th as int),
                ),
            decreases h - y,
        {
            let ghost head = *framebuffer;
            proof {
                lemma_scale_coord(x as int, w as int, tw as int);
                lemma_scale_coord(y as int, h as int, th as int);
            }
            let tx = x * tw / w;
            let ty = y * th / h;
            let c = texture.pixel(tx, ty);
            framebuffer.set_current_color(c);
            let ghost pre = *framebuffer;
            framebuffer.point(x, y);
            proof {
                lemma_point_update(pre, *framebuffer, x as int, y as int);
                assert(pre.pixels() == head.pixels());
                assert(tex_partial(*old(framebuffer), *framebuffer, *texture, x as int, y + 1));
            }
            y = y + 1;
        }
        proof {
            assert(tex_partial(*old(framebuffer), *framebuffer, *texture, x + 1, 0));
        }
        x = x + 1;
    }
}

/// Fill the world-cell rectangle at `(xo, yo)`, `block_width` wide and
/// `block_height` tall, with the cell fill color — unless the cell is
/// traversable, in which case nothing at all is drawn. Writes falling
/// outside the framebuffer are dropped by the bounds-checked writer.
pub fn draw_cell(
    framebuffer: &mut Framebuffer,
    xo: usize,
    yo: usize,
    block_width: usize,
    block_height: usize,
    cell: char,
)
    requires
        old(framebuffer).wf(),
        xo <= MAX_SIDE,
        yo <= MAX_SIDE,
        block_width <= MAX_SIDE,
        block_height <= MAX_SIDE,
    ensures
        final(framebuffer).wf(),
        final(framebuffer).spec_width() == old(framebuffer).spec_width(),
        final(framebuffer).spec_height() == old(framebuffer).spec_height(),
        final(framebuffer).spec_background() == old(framebuffer).spec_background(),
        cell == EMPTY_CELL ==> *final(framebuffer) == *old(framebuffer),
        cell != EMPTY_CELL ==> final(framebuffer).spec_color() == CELL_COLOR,
        cell != EMPTY_CELL ==> rect_painted(
            *old(framebuffer),
            *final(framebuffer),
            xo as int,
            yo as int,
            xo + block_width,
            yo + block_height,
            CELL_COLOR,
        ),
{
    if cell == EMPTY_CELL {
        return ;
    }
    framebuffer.set_current_color(CELL_COLOR);
    let x_end = xo + block_width;
    let y_end = yo + block_height;
    let mut x = xo;
    while x < x_end
        invariant
            framebuffer.wf(),
            framebuffer.spec_width() == old(framebuffer).spec_width(),
            framebuffer.spec_height() == old(framebuffer).spec_height(),
            framebuffer.spec_background() == old(framebuffer).spec_background(),
            framebuffer.spec_color() == CELL_COLOR,
            xo <= x <= x_end,
            x_end == xo + block_width,
            y_end == yo + block_height,
            rect_partial(
                *old(framebuffer),
                *framebuffer,
                xo as int,
                yo as int,
                y_end as int,
                x as int,
                yo as int,
                CELL_COLOR,
            ),
        decreases x_end - x,
    {
        let mut y = yo;
        while y < y_end
            invariant
                framebuffer.wf(),
                framebuffer.spec_width() == old(framebuffer).spec_width(),
                framebuffer.spec_height() == old(framebuffer).spec_height(),
                framebuffer.spec_background() == old(framebuffer).spec_background(),
                framebuffer.spec_color() == CELL_COLOR,
                xo <= x < x_end,
                yo <= y <= y_end,
                x_end == xo + block_width,
                y_end == yo + block_height,
                rect_partial(
                    *old(framebuffer),
                    *framebuffer,
                    xo as int,
                    yo as int,
                    y_end as int,
                    x as int,
                    y as int,
                    CELL_COLOR,
                ),
            decreases y_end - y,
        {
            let ghost pre = *framebuffer;
            framebuffer.point(x, y);
            proof {
                if pre.in_bounds(x as int, y as int) {
                    lemma_point_update(pre, *framebuffer, x as int, y as int);
                }
                assert(rect_partial(
                    *old(framebuffer),
                    *framebuffer,
                    xo as int,
                    yo as int,
                    y_end as int,
                    x as int,
                    y + 1,
                    CELL_COLOR,
                ));
            }
            y = y + 1;
        }
        proof {
            assert(rect_partial(
                *old(framebuffer),
                *framebuffer,
                xo as int,
                yo as int,
                y_end as int,
                x + 1,
                yo as int,
                CELL_COLOR,
            ));
        }
        x = x + 1;
    }
    proof {
        assert(rect_painted(
            *old(framebuffer),
            *framebuffer,
            xo as int,
            yo as int,
            x_end as int,
            y_end as int,
            CELL_COLOR,
        ));
    }
}

/// The stripe height, in pixels, that a hit at fixed-point distance `d`
/// projects to on a screen `fb_h` pixels tall:
/// `(block / distance) * distance_to_plane`, clamped to the screen height.
/// A hit at distance zero (the ray started inside a wall) projects a
/// full-screen stripe rather than an unbounded one.
pub open spec fn spec_stripe_height(fb_h: int, block: int, dtp: int, d: int) -> int {
    if d == 0 {
        fb_h
    } else {
        let raw = block * (SCALE as int) * dtp / d;
        if raw > fb_h {
            fb_h
        } else {
            raw
        }
    }
}

/// The first screen row of a stripe `sh` pixels tall, centered vertically.
pub open spec fn spec_stripe_top(fb_h: int, sh: int) -> int {
    fb_h / 2 - sh / 2
}

/// One past the last screen row of a stripe `sh` pixels tall.
pub open spec fn spec_stripe_bottom(fb_h: int, sh: int) -> int {
    fb_h / 2 + sh / 2
}

/// The texture row sampled at screen row `y` of the stripe `[top, bottom)`,
/// scaled over a texture `th` pixels tall; always within `[0, th)`.
pub open spec fn spec_texture_y(top: int, bottom: int, th: int, y: int) -> int {
    (y - top) * th / (bottom - top)
}

/// The color written at screen row `y` of a stripe: the texture sample at
/// the denormalized texture-x column and the stripe-scaled texture row.
pub open spec fn spec_stripe_color(
    texture: Texture,
    tex_fp: int,
    top: int,
    bottom: int,
    y: int,
) -> u32 {
    texture.pixel_at(
        tex_fp * texture.spec_width() / (SCALE as int),
        spec_texture_y(top, bottom, texture.spec_height(), y),
    )
}

/// Write progress partway through a stripe that fills rows `top..y` of
/// `column`: those pixels hold their stripe colors, everything else is
/// untouched.
pub open spec fn stripe_partial(
    pre: Framebuffer,
    post: Framebuffer,
    texture: Texture,
    tex_fp: int,
    column: int,
    top: int,
    bottom: int,
    y: int,
) -> bool {
    forall|px: int, py: int|
        #![trigger rm_index(pre.spec_width(), px, py)]
        pre.in_bounds(px, py) ==> post.pixels()[post.pixel_index(px, py)] == (if px == column && top
            <= py < y {
            spec_stripe_color(texture, tex_fp, top, bottom, py)
        } else {
            pre.pixels()[pre.pixel_index(px, py)]
        })
}

/// Project one cast hit onto a vertical textured stripe of one screen
/// column: the stripe's height follows from the hit distance (clamped to
/// the screen, full-screen at distance zero), it is centered vertically,
/// and each of its rows samples the wall texture at the hit's texture-x
/// and the row's proportional texture-y. No pixel outside the stripe
/// changes.
pub fn project_column(
    framebuffer: &mut Framebuffer,
    texture: &Texture,
    column: usize,
    hit: &Intersect,
    block_size: usize,
    distance_to_plane: u64,
)
    requires
        old(framebuffer).wf(),
        texture.wf(),
        column < old(framebuffer).spec_width(),
        hit.texture_x < SCALE,
        1 <= block_size <= MAX_BLOCK_SIZE,
        distance_to_plane <= 0x10_0000,
    ensures
        final(framebuffer).wf(),
        final(framebuffer).spec_width() == old(framebuffer).spec_width(),
        final(framebuffer).spec_height() == old(framebuffer).spec_height(),
        final(framebuffer).spec_background() == old(framebuffer).spec_background(),
        ({
            let sh = spec_stripe_height(
                old(framebuffer).spec_height(),
                block_size as int,
                distance_to_plane as int,
                hit.distance as int,
            );
            let top = spec_stripe_top(old(framebuffer).spec_height(), sh);
            let bottom = spec_stripe_bottom(old(framebuffer).spec_height(), sh);
            &&& stripe_partial(
                *old(framebuffer),
                *final(framebuffer),
                *texture,
                hit.texture_x as int,
                column as int,
                top,
                bottom,
                bottom,
            )
            &&& (top < bottom ==> final(framebuffer).spec_color() == spec_stripe_color(
                *texture,
                hit.texture_x as int,
                top,
                bottom,
                bottom - 1,
            ))
            &&& (top >= bottom ==> final(framebuffer).spec_color() == old(
                framebuffer,
            ).spec_color())
        }),
{
    let fb_h = framebuffer.height();
    let h2 = fb_h / 2;
    proof {
        assert((block_size as int) * (SCALE as int) * (distance_to_plane as int)
            <= 0x4000_0000_0000) by (nonlinear_arith)
            requires
                block_size <= 4096,
                distance_to_plane <= 0x10_0000,
                SCALE == 1024,
        ;
    }
    let block_fp: u64 = (block_size as u64) * SCALE;
    let sh_u: u64 = if hit.distance == 0 {
        fb_h as u64
    } else {
        let raw: u64 = block_fp * distance_to_plane / hit.distance;
        if raw > fb_h as u64 {
            fb_h as u64
        } else {
            raw
        }
    };
    let sh = sh_u as usize;
    let top = h2 - sh / 2;
    let bottom = h2 + sh / 2;
    let tw = texture.width();
    let th = texture.height();
    proof {
        assert((hit.texture_x as int) * (tw as int) / (SCALE as int) < (tw as int))
            by (nonlinear_arith)
            requires
                hit.texture_x < SCALE,
                SCALE == 1024,
                1 <= tw <= 16384,
        ;
    }
    let tex_x = (hit.texture_x * (tw as u64) / SCALE) as usize;
    let ghost top0 = top as int;
    let ghost bottom0 = bottom as int;
    let mut y = top;
    while y < bottom
        invariant
            framebuffer.wf(),
            framebuffer.spec_width() == old(framebuffer).spec_width(),
            framebuffer.spec_height() == old(framebuffer).spec_height(),
            framebuffer.spec_background() == old(framebuffer).spec_background(),
            texture.wf(),
            tw == texture.spec_width(),
            th == texture.spec_height(),
            top == top0,
            bottom == bottom0,
            top <= y <= bottom,
            bottom <= fb_h,
            fb_h == old(framebuffer).spec_height(),
            column < old(framebuffer).spec_width(),
            tex_x == (hit.texture_x as int) * (tw as int) / (SCALE as int),
            tex_x < tw,
            stripe_partial(
                *old(framebuffer),
                *framebuffer,
                *texture,
                hit.texture_x as int,
                column as int,
                top0,
                bottom0,
                y as int,
            ),
            y == top ==> framebuffer.spec_color() == old(framebuffer).spec_color(),
            y > top ==> framebuffer.spec_color() == spec_stripe_color(
                *texture,
                hit.texture_x as int,
                top0,
                bottom0,
                y - 1,
            ),
        decreases bottom - y,
    {
        let ghost head = *framebuffer;
        proof {
            assert(((y - top) as int) * (th as int) / ((bottom - top) as int) < (th as int))
                by (nonlinear_arith)
                requires
                    0 <= (y - top) as int,
                    ((y - top) as int) < ((bottom - top) as int),
                    1 <= th <= 16384,
            ;
            assert(((y - top) as int) * (th as int) <= 0x1000_0000) by (nonlinear_arith)
                requires
                    (y - top) as int <= 16384,
                    0 <= (y - top) as int,
                    0 <= th <= 16384,
            ;
        }
        let ty = (y - top) * th / (bottom - top);
        let c = texture.pixel(tex_x, ty);
        framebuffer.set_current_color(c);
        let ghost pre = *framebuffer;
        framebuffer.point(column, y);
        proof {
            lemma_point_update(pre, *framebuffer, column as int, y as int);
            assert(pre.pixels() == head.pixels());
            assert(stripe_partial(
                *old(framebuffer),
                *framebuffer,
                *texture,
                hit.texture_x as int,
                column as int,
                top0,
                bottom0,
                y + 1,
            ));
        }
        y = y + 1;
    }
}

/// The stripe that the hit at step `k` projects on column `i`, written
/// over `pre`: rows inside the stripe hold their stripe colors, the rest
/// of the column is untouched. Says nothing about other columns.
pub open spec fn column_striped(
    pre: Framebuffer,
    post: Framebuffer,
    texture: Texture,
    tex_fp: int,
    i: int,
    top: int,
    bottom: int,
) -> bool {
    forall|py: int|
        #![trigger rm_index(pre.spec_width(), i, py)]
        0 <= py < pre.spec_height() ==> post.pixels()[post.pixel_index(i, py)] == (if top <= py
            < bottom {
            spec_stripe_color(texture, tex_fp, top, bottom, py)
        } else {
            pre.pixels()[pre.pixel_index(i, py)]
        })
}

/// Every pixel of columns `i` and beyond is untouched between `pre` and
/// `post`.
pub open spec fn columns_from_unchanged(pre: Framebuffer, post: Framebuffer, i: int) -> bool {
    forall|px: int, py: int|
        #![trigger rm_index(pre.spec_width(), px, py)]
        pre.in_bounds(px, py) && px >= i ==> post.pixels()[post.pixel_index(px, py)]
            == pre.pixels()[pre.pixel_index(px, py)]
}

/// Columns before `n` are rendered: a column whose ray hits carries that
/// hit's stripe and is otherwise untouched, and a column whose ray misses
/// is untouched entirely.
pub open spec fn columns_rendered(
    pre: Framebuffer,
    post: Framebuffer,
    maze: Grid,
    player: Player,
    texture: Texture,
    dirs: Seq<Direction>,
    block: int,
    step: int,
    dtp: int,
    n: int,
) -> bool {
    &&& forall|i: int, k: int|
        0 <= i < n && #[trigger] crate::intersect::cast_hits_at(
            maze,
            player,
            dirs[i],
            block,
            step,
            k,
        ) ==> ({
            let d = k * step;
            let sh = spec_stripe_height(pre.spec_height(), block, dtp, d);
            let top = spec_stripe_top(pre.spec_height(), sh);
            let bottom = spec_stripe_bottom(pre.spec_height(), sh);
            column_striped(
                pre,
                post,
                texture,
                crate::intersect::spec_texture_x(player, dirs[i], block, d),
                i,
                top,
                bottom,
            )
        })
    &&& forall|i: int|
        #![trigger dirs[i]]
        0 <= i < n && !crate::intersect::ray_hits(maze, player, dirs[i], block, step) ==> (
        forall|py: int|
            #![trigger rm_index(pre.spec_width(), i, py)]
            0 <= py < pre.spec_height() ==> post.pixels()[post.pixel_index(i, py)]
                == pre.pixels()[pre.pixel_index(i, py)])
}

/// Render the first-person view: for each screen column, cast its ray
/// along the supplied direction and project the hit — if any — as a
/// textured wall stripe; a column whose ray leaves the grid is left
/// untouched. The caller supplies one fixed-point direction per column
/// (the column's angle across the field of view) and the distance to the
/// projection plane in pixels; deriving both takes trigonometry, which
/// stays outside this crate.
pub fn render3d(
    framebuffer: &mut Framebuffer,
    maze: &Grid,
    player: &Player,
    texture: &Texture,
    dirs: &Vec<Direction>,
    block_size: usize,
    step_size: u64,
    distance_to_plane: u64,
)
    requires
        old(framebuffer).wf(),
        maze.wf(),
        texture.wf(),
        dirs@.len() == old(framebuffer).spec_width(),
        forall|i: int| 0 <= i < dirs@.len() ==> (#[trigger] dirs@[i]).wf(),
        1 <= block_size <= MAX_BLOCK_SIZE,
        1 <= step_size <= 0x1_0000_0000,
        distance_to_plane <= 0x10_0000,
        (player.pos_x as int) < maze.spec_width() * (block_size as int) * (SCALE as int),
        (player.pos_y as int) < maze.spec_height() * (block_size as int) * (SCALE as int),
    ensures
        final(framebuffer).wf(),
        final(framebuffer).spec_width() == old(framebuffer).spec_width(),
        final(framebuffer).spec_height() == old(framebuffer).spec_height(),
        final(framebuffer).spec_background() == old(framebuffer).spec_background(),
        columns_rendered(
            *old(framebuffer),
            *final(framebuffer),
            *maze,
            *player,
            *texture,
            dirs@,
            block_size as int,
            step_size as int,
            distance_to_plane as int,
            old(framebuffer).spec_width(),
        ),
{
    framebuffer.set_current_color(CELL_COLOR);
    let num_rays = framebuffer.width();
    let mut i: usize = 0;
    while i < num_rays
        invariant
            framebuffer.wf(),
            framebuffer.spec_width() == old(framebuffer).spec_width(),
            framebuffer.spec_height() == old(framebuffer).spec_height(),
            framebuffer.spec_background() == old(framebuffer).spec_background(),
            maze.wf(),
            texture.wf(),
            num_rays == old(framebuffer).spec_width(),
            i <= num_rays,
            dirs@.len() == num_rays,
            forall|n: int| 0 <= n < dirs@.len() ==> (#[trigger] dirs@[n]).wf(),
            1 <= block_size <= MAX_BLOCK_SIZE,
            1 <= step_size <= 0x1_0000_0000,
            distance_to_plane <= 0x10_0000,
            (player.pos_x as int) < maze.spec_width() * (block_size as int) * (SCALE as int),
            (player.pos_y as int) < maze.spec_height() * (block_size as int) * (SCALE as int),
            columns_from_unchanged(*old(framebuffer), *framebuffer, i as int),
            columns_rendered(
                *old(framebuffer),
                *framebuffer,
                *maze,
                *player,
                *texture,
                dirs@,
                block_size as int,
                step_size as int,
                distance_to_plane as int,
                i as int,
            ),
        decreases num_rays - i,
    {
        let ghost head = *framebuffer;
        let dir = &dirs[i];
        let r = cast_ray3d(framebuffer, maze, player, dir, block_size, step_size, false);
        proof {
            crate::intersect::lemma_cast_post_characterizes(
                *maze,
                *player,
                dirs@[i as int],
                block_size as int,
                step_size as int,
                r,
            );
            assert(framebuffer.pixels() == head.pixels());
        }
        let ghost mid = *framebuffer;
        match r {
            CastResult::Hit(hit) => {
                project_column(framebuffer, texture, i, &hit, block_size, distance_to_plane);
                proof {
                    assert(mid.pixels() == head.pixels());
                    assert(columns_from_unchanged(*old(framebuffer), *framebuffer, i + 1));
                    assert forall|ii: int, k: int|
                        0 <= ii < i + 1 && #[trigger] crate::intersect::cast_hits_at(
                            *maze,
                            *player,
                            dirs@[ii],
                            block_size as int,
                            step_size as int,
                            k,
                        ) implies ({
                        let d = k * (step_size as int);
                        let sh = spec_stripe_height(
                            old(framebuffer).spec_height(),
                            block_size as int,
                            distance_to_plane as int,
                            d,
                        );
                        let top = spec_stripe_top(old(framebuffer).spec_height(), sh);
                        let bottom = spec_stripe_bottom(old(framebuffer).spec_height(), sh);
                        column_striped(
                            *old(framebuffer),
                            *framebuffer,
                            *texture,
                            crate::intersect::spec_texture_x(
                                *player,
                                dirs@[ii],
                                block_size as int,
                                d,
                            ),
                            ii,
                            top,
                            bottom,
                        )
                    }) by {
                        let d = k * (step_size as int);
                        let sh = spec_stripe_height(
                            old(framebuffer).spec_height(),
                            block_size as int,
                            distance_to_plane as int,
                            d,
                        );
                        let top = spec_stripe_top(old(framebuffer).spec_height(), sh);
                        let bottom = spec_stripe_bottom(old(framebuffer).spec_height(), sh);
                        let texf = crate::intersect::spec_texture_x(
                            *player,
                            dirs@[ii],
                            block_size as int,
                            d,
                        );
                        assert forall|py: int|
                            0 <= py < old(framebuffer).spec_height() implies framebuffer.pixels()[#[trigger] rm_index(
                            old(framebuffer).spec_width(),
                            ii,
                            py,
                        )] == (if top <= py < bottom {
                            spec_stripe_color(*texture, texf, top, bottom, py)
                        } else {
                            old(framebuffer).pixels()[old(framebuffer).pixel_index(ii, py)]
                        }) by {
                            assert(framebuffer.pixel_index(ii, py) == rm_index(
                                old(framebuffer).spec_width(),
                                ii,
                                py,
                            ));
                            assert(mid.pixel_index(ii, py) == rm_index(
                                old(framebuffer).spec_width(),
                                ii,
                                py,
                            ));
                            if ii == i as int {
                                assert(hit.distance == d);
                                assert(hit.texture_x as int == texf);
                            } else {
                                assert(crate::intersect::cast_hits_at(
                                    *maze,
                                    *player,
                                    dirs@[ii],
                                    block_size as int,
                                    step_size as int,
                                    k,
                                ));
                            }
                        }
                    }
                    let k_wit = choose|k: int|
                        {
                            &&& 0 <= k
                            &&& #[trigger] crate::intersect::step_wall(
                                *maze,
                                *player,
                                dirs@[i as int],
                                block_size as int,
                                step_size as int,
                                k,
                            )
                            &&& crate::intersect::prefix_empty(
                                *maze,
                                *player,
                                dirs@[i as int],
                                block_size as int,
                                step_size as int,
                                k,
                            )
                            &&& hit.distance == k * (step_size as int)
                            &&& hit.impact == crate::intersect::sample_code(
                                *maze,
                                *player,
                                dirs@[i as int],
                                block_size as int,
                                k * (step_size as int),
                            )
                            &&& hit.texture_x == crate::intersect::spec_texture_x(
                                *player,
                                dirs@[i as int],
                                block_size as int,
                                k * (step_size as int),
                            )
                        };
                    assert(crate::intersect::cast_hits_at(
                        *maze,
                        *player,
                        dirs@[i as int],
                        block_size as int,
                        step_size as int,
                        k_wit,
                    ));
                    assert(crate::intersect::ray_hits(
                        *maze,
                        *player,
                        dirs@[i as int],
                        block_size as int,
                        step_size as int,
                    ));
                    assert forall|ii: int|
                        #![trigger dirs@[ii]]
                        0 <= ii < i + 1 && !crate::intersect::ray_hits(
                            *maze,
                            *player,
                            dirs@[ii],
                            block_size as int,
                            step_size as int,
                        ) implies (forall|py: int|
                        #![trigger rm_index(old(framebuffer).spec_width(), ii, py)]
                        0 <= py < old(framebuffer).spec_height() ==> framebuffer.pixels()[framebuffer.pixel_index(
                            ii,
                            py,
                        )] == old(framebuffer).pixels()[old(framebuffer).pixel_index(ii, py)]) by {
                        assert(ii != i as int);
                        assert forall|py: int|
                            0 <= py < old(framebuffer).spec_height() implies framebuffer.pixels()[#[trigger] rm_index(
                            old(framebuffer).spec_width(),
                            ii,
                            py,
                        )] == old(framebuffer).pixels()[old(framebuffer).pixel_index(ii, py)] by {
                            assert(framebuffer.pixel_index(ii, py) == rm_index(
                                old(framebuffer).spec_width(),
                                ii,
                                py,
                            ));
                            assert(mid.pixel_index(ii, py) == rm_index(
                                old(framebuffer).spec_width(),
                                ii,
                                py,
                            ));
                            assert(head.pixel_index(ii, py) == rm_index(
                                old(framebuffer).spec_width(),
                                ii,
                                py,
                            ));
                        }
                    }
                    assert(columns_rendered(
                        *old(framebuffer),
                        *framebuffer,
                        *maze,
                        *player,
                        *texture,
                        dirs@,
                        block_size as int,
                        step_size as int,
                        distance_to_plane as int,
                        i + 1,
                    ));
                }
            },
            CastResult::Miss => {
                proof {
                    assert(columns_from_unchanged(*old(framebuffer), *framebuffer, i + 1));
                    assert forall|ii: int, k: int|
                        0 <= ii < i + 1 && #[trigger] crate::intersect::cast_hits_at(
                            *maze,
                            *player,
                            dirs@[ii],
                            block_size as int,
                            step_size as int,
                            k,
                        ) implies ({
                        let d = k * (step_size as int);
                        let sh = spec_stripe_height(
                            old(framebuffer).spec_height(),
                            block_size as int,
                            distance_to_plane as int,
                            d,
                        );
                        let top = spec_stripe_top(old(framebuffer).spec_height(), sh);
                        let bottom = spec_stripe_bottom(old(framebuffer).spec_height(), sh);
                        column_striped(
                            *old(framebuffer),
                            *framebuffer,
                            *texture,
                            crate::intersect::spec_texture_x(
                                *player,
                                dirs@[ii],
                                block_size as int,
                                d,
                            ),
                            ii,
                            top,
                            bottom,
                        )
                    }) by {
                        assert(ii != i as int);
                        let d = k * (step_size as int);
                        let sh = spec_stripe_height(
                            old(framebuffer).spec_height(),
                            block_size as int,
                            distance_to_plane as int,
                            d,
                        );
                        let top = spec_stripe_top(old(framebuffer).spec_height(), sh);
                        let bottom = spec_stripe_bottom(old(framebuffer).spec_height(), sh);
                        let texf = crate::intersect::spec_texture_x(
                            *player,
                            dirs@[ii],
                            block_size as int,
                            d,
                        );
                        assert forall|py: int|
                            0 <= py < old(framebuffer).spec_height() implies framebuffer.pixels()[#[trigger] rm_index(
                            old(framebuffer).spec_width(),
                            ii,
                            py,
                        )] == (if top <= py < bottom {
                            spec_stripe_color(*texture, texf, top, bottom, py)
                        } else {
                            old(framebuffer).pixels()[old(framebuffer).pixel_index(ii, py)]
                        }) by {
                            assert(framebuffer.pixel_index(ii, py) == rm_index(
                                old(framebuffer).spec_width(),
                                ii,
                                py,
                            ));
                            assert(head.pixel_index(ii, py) == rm_index(
                                old(framebuffer).spec_width(),
                                ii,
                                py,
                            ));
                        }
                    }
                    assert forall|ii: int|
                        #![trigger dirs@[ii]]
                        0 <= ii < i + 1 && !crate::intersect::ray_hits(
                            *maze,
                            *player,
                            dirs@[ii],
                            block_size as int,
                            step_size as int,
                        ) implies (forall|py: int|
                        #![trigger rm_index(old(framebuffer).spec_width(), ii, py)]
                        0 <= py < old(framebuffer).spec_height() ==> framebuffer.pixels()[framebuffer.pixel_index(
                            ii,
                            py,
                        )] == old(framebuffer).pixels()[old(framebuffer).pixel_index(ii, py)]) by {
                        assert forall|py: int|
                            0 <= py < old(framebuffer).spec_height() implies framebuffer.pixels()[#[trigger] rm_index(
                            old(framebuffer).spec_width(),
                            ii,
                            py,
                        )] == old(framebuffer).pixels()[old(framebuffer).pixel_index(ii, py)] by {
                            assert(framebuffer.pixel_index(ii, py) == rm_index(
                                old(framebuffer).spec_width(),
                                ii,
                                py,
                            ));
                            assert(head.pixel_index(ii, py) == rm_index(
                                old(framebuffer).spec_width(),
                                ii,
                                py,
                            ));
                        }
                    }
                    assert(columns_rendered(
                        *old(framebuffer),
                        *framebuffer,
                        *maze,
                        *player,
                        *texture,
                        dirs@,
                        block_size as int,
                        step_size as int,
                        distance_to_plane as int,
                        i + 1,
                    ));
                }
            },
        }
        i = i + 1;
    }
}

/// The draw color of the player marker on the minimap.
pub const MARKER_COLOR: u32 = 0xFF0000;

/// The minimap x coordinate of the player marker: the world x position
/// scaled onto the minimap, offset by the minimap origin.
pub open spec fn spec_marker_x(player: Player, minimap_xo: int, minimap_size: int, fb_w: int) -> int {
    minimap_xo + (player.pos_x as int) / (SCALE as int) * minimap_size / fb_w
}

/// The minimap y coordinate of the player marker.
pub open spec fn spec_marker_y(player: Player, minimap_yo: int, minimap_size: int, fb_h: int) -> int {
    minimap_yo + (player.pos_y as int) / (SCALE as int) * minimap_size / fb_h
}

/// The pixel `(px, py)` lies inside the scaled rectangle of an occupied
/// cell among those the fill has walked: every cell of a row before
/// `row`, and the cells of row `row` before column `col`.
pub open spec fn minimap_covers_upto(
    maze: Grid,
    xo: int,
    yo: int,
    bw: int,
    bh: int,
    row: int,
    col: int,
    px: int,
    py: int,
) -> bool {
    exists|r: int, c: int|
        #![trigger maze.cell_at(c, r)]
        {
            &&& 0 <= r < maze.spec_height()
            &&& 0 <= c < maze.spec_width()
            &&& (r < row || (r == row && c < col))
            &&& maze.cell_at(c, r) != EMPTY_CELL
            &&& xo + c * bw <= px < xo + c * bw + bw
            &&& yo + r * bh <= py < yo + r * bh + bh
        }
}

/// The pixel `(px, py)` lies inside the scaled rectangle of some occupied
/// cell of the grid.
pub open spec fn minimap_covers(
    maze: Grid,
    xo: int,
    yo: int,
    bw: int,
    bh: int,
    px: int,
    py: int,
) -> bool {
    minimap_covers_upto(maze, xo, yo, bw, bh, maze.spec_height(), 0, px, py)
}

/// `post` is `pre` with the minimap drawn: each occupied cell's scaled
/// `bw` x `bh` rectangle holds the cell fill color, the player marker
/// sits on top at `(mx, my)`, and every other pixel is untouched.
pub open spec fn minimap_painted(
    pre: Framebuffer,
    post: Framebuffer,
    maze: Grid,
    xo: int,
    yo: int,
    bw: int,
    bh: int,
    mx: int,
    my: int,
) -> bool {
    forall|px: int, py: int|
        #![trigger rm_index(pre.spec_width(), px, py)]
        pre.in_bounds(px, py) ==> post.pixels()[post.pixel_index(px, py)] == (if px == mx && py
            == my {
            MARKER_COLOR
        } else if minimap_covers(maze, xo, yo, bw, bh, px, py) {
            CELL_COLOR
        } else {
            pre.pixels()[pre.pixel_index(px, py)]
        })
}

/// Fill progress partway through the cell walk: pixels covered by the
/// cells walked so far hold the cell fill color, the rest are untouched.
spec fn minimap_cells_partial(
    pre: Framebuffer,
    post: Framebuffer,
    maze: Grid,
    xo: int,
    yo: int,
    bw: int,
    bh: int,
    row: int,
    col: int,
) -> bool {
    forall|px: int, py: int|
        #![trigger rm_index(pre.spec_width(), px, py)]
        pre.in_bounds(px, py) ==> post.pixels()[post.pixel_index(px, py)] == (if minimap_covers_upto(
            maze,
            xo,
            yo,
            bw,
            bh,
            row,
            col,
            px,
            py,
        ) {
            CELL_COLOR
        } else {
            pre.pixels()[pre.pixel_index(px, py)]
        })
}

/// Walking one cell further covers exactly the pixels covered before,
/// plus — when that cell is occupied — its own rectangle.
proof fn lemma_covers_step(
    maze: Grid,
    xo: int,
    yo: int,
    bw: int,
    bh: int,
    row: int,
    col: int,
    px: int,
    py: int,
)
    requires
        0 <= row < maze.spec_height(),
        0 <= col < maze.spec_width(),
    ensures
        minimap_covers_upto(maze, xo, yo, bw, bh, row, col + 1, px, py) <==> (minimap_covers_upto(
            maze,
            xo,
            yo,
            bw,
            bh,
            row,
            col,
            px,
            py,
        ) || (maze.cell_at(col, row) != EMPTY_CELL && xo + col * bw <= px < xo + col * bw + bw && yo
            + row * bh <= py < yo + row * bh + bh)),
{
    if minimap_covers_upto(maze, xo, yo, bw, bh, row, col + 1, px, py) {
        let (r, c) = choose|r: int, c: int|
            {
                &&& 0 <= r < maze.spec_height()
                &&& 0 <= c < maze.spec_width()
                &&& (r < row || (r == row && c < col + 1))
                &&& #[trigger] maze.cell_at(c, r) != EMPTY_CELL
                &&& xo + c * bw <= px < xo + c * bw + bw
                &&& yo + r * bh <= py < yo + r * bh + bh
            };
        if !(r == row && c == col) {
            assert(minimap_covers_upto(maze, xo, yo, bw, bh, row, col, px, py));
        }
    }
    if minimap_covers_upto(maze, xo, yo, bw, bh, row, col, px, py) {
        let (r, c) = choose|r: int, c: int|
            {
                &&& 0 <= r < maze.spec_height()
                &&& 0 <= c < maze.spec_width()
                &&& (r < row || (r == row && c < col))
                &&& #[trigger] maze.cell_at(c, r) != EMPTY_CELL
                &&& xo + c * bw <= px < xo + c * bw + bw
                &&& yo + r * bh <= py < yo + r * bh + bh
            };
        assert(minimap_covers_upto(maze, xo, yo, bw, bh, row, col + 1, px, py));
    }
    if maze.cell_at(col, row) != EMPTY_CELL && xo + col * bw <= px < xo + col * bw + bw && yo + row
        * bh <= py < yo + row * bh + bh {
        assert(minimap_covers_upto(maze, xo, yo, bw, bh, row, col + 1, px, py));
    }
}

/// Finishing a row covers the same pixels as standing at the start of the
/// next row.
proof fn lemma_covers_row(
    maze: Grid,
    xo: int,
    yo: int,
    bw: int,
    bh: int,
    row: int,
    px: int,
    py: int,
)
    requires
        0 <= row < maze.spec_height(),
    ensures
        minimap_covers_upto(maze, xo, yo, bw, bh, row + 1, 0, px, py) <==> minimap_covers_upto(
            maze,
            xo,
            yo,
            bw,
            bh,
            row,
            maze.spec_width(),
            px,
            py,
        ),
{
    if minimap_covers_upto(maze, xo, yo, bw, bh, row + 1, 0, px, py) {
        let (r, c) = choose|r: int, c: int|
            {
                &&& 0 <= r < maze.spec_height()
                &&& 0 <= c < maze.spec_width()
                &&& (r < row + 1 || (r == row + 1 && c < 0))
                &&& #[trigger] maze.cell_at(c, r) != EMPTY_CELL
                &&& xo + c * bw <= px < xo + c * bw + bw
                &&& yo + r * bh <= py < yo + r * bh + bh
            };
        assert(minimap_covers_upto(maze, xo, yo, bw, bh, row, maze.spec_width(), px, py));
    }
    if minimap_covers_upto(maze, xo, yo, bw, bh, row, maze.spec_width(), px, py) {
        let (r, c) = choose|r: int, c: int|
            {
                &&& 0 <= r < maze.spec_height()
                &&& 0 <= c < maze.spec_width()
                &&& (r < row || (r == row && c < maze.spec_width()))
                &&& #[trigger] maze.cell_at(c, r) != EMPTY_CELL
                &&& xo + c * bw <= px < xo + c * bw + bw
                &&& yo + r * bh <= py < yo + r * bh + bh
            };
        assert(minimap_covers_upto(maze, xo, yo, bw, bh, row + 1, 0, px, py));
    }
}

/// A minimap cell's rectangle stays inside the minimap square.
proof fn lemma_minimap_cell_bound(c: int, n: int, size: int)
    by (nonlinear_arith)
    requires
        0 <= c < n,
        1 <= n,
        0 <= size,
    ensures
        0 <= c * (size / n),
        c * (size / n) + size / n <= size,
{
}

/// Render the top-down minimap, a pure function of the grid and the
/// pose: every occupied cell of the grid has its scaled rectangle filled
/// with the cell fill color, the player's position is marked on top, and
/// no other pixel changes.
pub fn render(
    framebuffer: &mut Framebuffer,
    maze: &Grid,
    player: &Player,
    minimap_xo: usize,
    minimap_yo: usize,
    minimap_size: usize,
)
    requires
        old(framebuffer).wf(),
        maze.wf(),
        minimap_xo + minimap_size <= MAX_SIDE,
        minimap_yo + minimap_size <= MAX_SIDE,
        player.pos_x <= 0x4_0000_0000,
        player.pos_y <= 0x4_0000_0000,
    ensures
        final(framebuffer).wf(),
        final(framebuffer).spec_width() == old(framebuffer).spec_width(),
        final(framebuffer).spec_height() == old(framebuffer).spec_height(),
        final(framebuffer).spec_background() == old(framebuffer).spec_background(),
        final(framebuffer).spec_color() == MARKER_COLOR,
        ({
            let fb0 = *old(framebuffer);
            let bw = minimap_size as int / maze.spec_width();
            let bh = minimap_size as int / maze.spec_height();
            let mx = spec_marker_x(*player, minimap_xo as int, minimap_size as int, fb0.spec_width());
            let my = spec_marker_y(
                *player,
                minimap_yo as int,
                minimap_size as int,
                fb0.spec_height(),
            );
            minimap_painted(
                fb0,
                *final(framebuffer),
                *maze,
                minimap_xo as int,
                minimap_yo as int,
                bw,
                bh,
                mx,
                my,
            )
        }),
{
    let maze_width = maze.width();
    let maze_height = maze.height();
    let block_width = minimap_size / maze_width;
    let block_height = minimap_size / maze_height;
    let ghost xo = minimap_xo as int;
    let ghost yo = minimap_yo as int;
    let ghost bw = block_width as int;
    let ghost bh = block_height as int;
    proof {
        assert forall|px: int, py: int|
            #![trigger rm_index(old(framebuffer).spec_width(), px, py)]
            old(framebuffer).in_bounds(px, py) implies !minimap_covers_upto(
            *maze,
            xo,
            yo,
            bw,
            bh,
            0,
            0,
            px,
            py,
        ) by {
            if minimap_covers_upto(*maze, xo, yo, bw, bh, 0, 0, px, py) {
                let (r, c) = choose|r: int, c: int|
                    {
                        &&& 0 <= r < maze.spec_height()
                        &&& 0 <= c < maze.spec_width()
                        &&& (r < 0 || (r == 0 && c < 0))
                        &&& #[trigger] maze.cell_at(c, r) != EMPTY_CELL
                        &&& xo + c * bw <= px < xo + c * bw + bw
                        &&& yo + r * bh <= py < yo + r * bh + bh
                    };
                assert(false);
            }
        }
    }
    let mut row: usize = 0;
    while row < maze_height
        invariant
            framebuffer.wf(),
            framebuffer.spec_width() == old(framebuffer).spec_width(),
            framebuffer.spec_height() == old(framebuffer).spec_height(),
            framebuffer.spec_background() == old(framebuffer).spec_background(),
            maze.wf(),
            maze_width == maze.spec_width(),
            maze_height == maze.spec_height(),
            bw == minimap_size as int / maze_width as int,
            bh == minimap_size as int / maze_height as int,
            block_width == bw,
            block_height == bh,
            xo == minimap_xo as int,
            yo == minimap_yo as int,
            minimap_xo + minimap_size <= MAX_SIDE,
            minimap_yo + minimap_size <= MAX_SIDE,
            row <= maze_height,
            minimap_cells_partial(
                *old(framebuffer),
                *framebuffer,
                *maze,
                xo,
                yo,
                bw,
                bh,
                row as int,
                0,
            ),
        decreases maze_height - row,
    {
        let mut col: usize = 0;
        while col < maze_width
            invariant
                framebuffer.wf(),
                framebuffer.spec_width() == old(framebuffer).spec_width(),
                framebuffer.spec_height() == old(framebuffer).spec_height(),
                framebuffer.spec_background() == old(framebuffer).spec_background(),
                maze.wf(),
                maze_width == maze.spec_width(),
                maze_height == maze.spec_height(),
                bw == minimap_size as int / maze_width as int,
                bh == minimap_size as int / maze_height as int,
                block_width == bw,
                block_height == bh,
                xo == minimap_xo as int,
                yo == minimap_yo as int,
                minimap_xo + minimap_size <= MAX_SIDE,
                minimap_yo + minimap_size <= MAX_SIDE,
                row < maze_height,
                col <= maze_width,
                minimap_cells_partial(
                    *old(framebuffer),
                    *framebuffer,
                    *maze,
                    xo,
                    yo,
                    bw,
                    bh,
                    row as int,
                    col as int,
                ),
            decreases maze_width - col,
        {
            proof {
                lemma_minimap_cell_bound(col as int, maze_width as int, minimap_size as int);
                lemma_minimap_cell_bound(row as int, maze_height as int, minimap_size as int);
            }
            let cell_x = minimap_xo + col * block_width;
            let cell_y = minimap_yo + row * block_height;
            let cell = maze.cell(col, row);
            let ghost head = *framebuffer;
            draw_cell(framebuffer, cell_x, cell_y, block_width, block_height, cell);
            proof {
                assert forall|px: int, py: int|
                    #![trigger rm_index(old(framebuffer).spec_width(), px, py)]
                    old(framebuffer).in_bounds(px, py) implies framebuffer.pixels()[framebuffer.pixel_index(
                    px,
                    py,
                )] == (if minimap_covers_upto(
                    *maze,
                    xo,
                    yo,
                    bw,
                    bh,
                    row as int,
                    col + 1,
                    px,
                    py,
                ) {
                    CELL_COLOR
                } else {
                    old(framebuffer).pixels()[old(framebuffer).pixel_index(px, py)]
                }) by {
                    lemma_covers_step(*maze, xo, yo, bw, bh, row as int, col as int, px, py);
                    assert(head.pixel_index(px, py) == rm_index(
                        old(framebuffer).spec_width(),
                        px,
                        py,
                    ));
                    assert(framebuffer.pixel_index(px, py) == rm_index(
                        old(framebuffer).spec_width(),
                        px,
                        py,
                    ));
                }
                assert(minimap_cells_partial(
                    *old(framebuffer),
                    *framebuffer,
                    *maze,
                    xo,
                    yo,
                    bw,
                    bh,
                    row as int,
                    col + 1,
                ));
            }
            col = col + 1;
        }
        proof {
            assert forall|px: int, py: int|
                #![trigger rm_index(old(framebuffer).spec_width(), px, py)]
                old(framebuffer).in_bounds(px, py) implies framebuffer.pixels()[framebuffer.pixel_index(
                px,
                py,
            )] == (if minimap_covers_upto(*maze, xo, yo, bw, bh, row + 1, 0, px, py) {
                CELL_COLOR
            } else {
                old(framebuffer).pixels()[old(framebuffer).pixel_index(px, py)]
            }) by {
                lemma_covers_row(*maze, xo, yo, bw, bh, row as int, px, py);
            }
            assert(minimap_cells_partial(
                *old(framebuffer),
                *framebuffer,
                *maze,
                xo,
                yo,
                bw,
                bh,
                row + 1,
                0,
            ));
        }
        row = row + 1;
    }
    let ghost cells_done = *framebuffer;
    framebuffer.set_current_color(MARKER_COLOR);
    let fb_w = framebuffer.width();
    let fb_h = framebuffer.height();
    let wx: u64 = player.pos_x / SCALE;
    let wy: u64 = player.pos_y / SCALE;
    proof {
        assert((wx as int) * (minimap_size as int) <= 0x100_0000_0000) by (nonlinear_arith)
            requires
                wx <= 0x400_0000,
                minimap_size <= 16384,
        ;
        assert((wy as int) * (minimap_size as int) <= 0x100_0000_0000) by (nonlinear_arith)
            requires
                wy <= 0x400_0000,
                minimap_size <= 16384,
        ;
    }
    let marker_x: u64 = (minimap_xo as u64) + wx * (minimap_size as u64) / (fb_w as u64);
    let marker_y: u64 = (minimap_yo as u64) + wy * (minimap_size as u64) / (fb_h as u64);
    let ghost mx = spec_marker_x(*player, xo, minimap_size as int, old(framebuffer).spec_width());
    let ghost my = spec_marker_y(*player, yo, minimap_size as int, old(framebuffer).spec_height());
    proof {
        assert(marker_x == mx);
        assert(marker_y == my);
    }
    let ghost pre = *framebuffer;
    if marker_x < fb_w as u64 && marker_y < fb_h as u64 {
        framebuffer.point(marker_x as usize, marker_y as usize);
        proof {
            lemma_point_update(pre, *framebuffer, marker_x as int, marker_y as int);
        }
    }
    proof {
        assert forall|px: int, py: int|
            #![trigger rm_index(old(framebuffer).spec_width(), px, py)]
            old(framebuffer).in_bounds(px, py) implies framebuffer.pixels()[framebuffer.pixel_index(
            px,
            py,
        )] == (if px == mx && py == my {
            MARKER_COLOR
        } else if minimap_covers(*maze, xo, yo, bw, bh, px, py) {
            CELL_COLOR
        } else {
            old(framebuffer).pixels()[old(framebuffer).pixel_index(px, py)]
        }) by {
            assert(cells_done.pixel_index(px, py) == rm_index(
                old(framebuffer).spec_width(),
                px,
                py,
            ));
            assert(pre.pixel_index(px, py) == rm_index(old(framebuffer).spec_width(), px, py));
            assert(framebuffer.pixel_index(px, py) == rm_index(
                old(framebuffer).spec_width(),
                px,
                py,
            ));
            assert(pre.pixels() == cells_done.pixels());
        }
        assert(minimap_painted(
            *old(framebuffer),
            *framebuffer,
            *maze,
            xo,
            yo,
            bw,
            bh,
            mx,
            my,
        ));
    }
}

/// Drive one frame: clear the framebuffer, fill it with the floor
/// texture, render the first-person wall view column by column, and lay
/// the minimap on top. The contract names the two intermediate buffers:
/// the floor fill covers every pixel, the wall pass writes each column's
/// stripe over it, and the minimap is painted over the result. The
/// completed buffer is then ready to hand to a presentation layer.
pub fn render_frame(
    framebuffer: &mut Framebuffer,
    maze: &Grid,
    player: &Player,
    wall_texture: &Texture,
    floor_texture: &Texture,
    dirs: &Vec<Direction>,
    block_size: usize,
    step_size: u64,
    distance_to_plane: u64,
    minimap_xo: usize,
    minimap_yo: usize,
    minimap_size: usize,
)
    requires
        old(framebuffer).wf(),
        maze.wf(),
        wall_texture.wf(),
        floor_texture.wf(),
        dirs@.len() == old(framebuffer).spec_width(),
        forall|i: int| 0 <= i < dirs@.len() ==> (#[trigger] dirs@[i]).wf(),
        1 <= block_size <= MAX_BLOCK_SIZE,
        1 <= step_size <= 0x1_0000_0000,
        distance_to_plane <= 0x10_0000,
        (player.pos_x as int) < maze.spec_width() * (block_size as int) * (SCALE as int),
        (player.pos_y as int) < maze.spec_height() * (block_size as int) * (SCALE as int),
        minimap_xo + minimap_size <= MAX_SIDE,
        minimap_yo + minimap_size <= MAX_SIDE,
    ensures
        final(framebuffer).wf(),
        final(framebuffer).spec_width() == old(framebuffer).spec_width(),
        final(framebuffer).spec_height() == old(framebuffer).spec_height(),
        final(framebuffer).spec_background() == old(framebuffer).spec_background(),
        ({
            let fb0 = *old(framebuffer);
            let fb3 = *final(framebuffer);
            let bw = minimap_size as int / maze.spec_width();
            let bh = minimap_size as int / maze.spec_height();
            let mx = spec_marker_x(*player, minimap_xo as int, minimap_size as int, fb0.spec_width());
            let my = spec_marker_y(
                *player,
                minimap_yo as int,
                minimap_size as int,
                fb0.spec_height(),
            );
            exists|floor_fb: Framebuffer, walls_fb: Framebuffer|
                #![trigger columns_rendered(floor_fb, walls_fb, *maze, *player, *wall_texture, dirs@, block_size as int, step_size as int, distance_to_plane as int, fb0.spec_width())]
                {
                    &&& floor_fb.wf()
                    &&& floor_fb.spec_width() == fb0.spec_width()
                    &&& floor_fb.spec_height() == fb0.spec_height()
                    &&& texture_applied(fb0, floor_fb, *floor_texture)
                    &&& walls_fb.wf()
                    &&& walls_fb.spec_width() == fb0.spec_width()
                    &&& walls_fb.spec_height() == fb0.spec_height()
                    &&& columns_rendered(
                        floor_fb,
                        walls_fb,
                        *maze,
                        *player,
                        *wall_texture,
                        dirs@,
                        block_size as int,
                        step_size as int,
                        distance_to_plane as int,
                        fb0.spec_width(),
                    )
                    &&& minimap_painted(
                        walls_fb,
                        fb3,
                        *maze,
                        minimap_xo as int,
                        minimap_yo as int,
                        bw,
                        bh,
                        mx,
                        my,
                    )
                }
        }),
{
    proof {
        assert(maze.spec_width() * (block_size as int) * (SCALE as int) == maze.spec_width() * (
        block_size as int) * 1024);
        lemma_pos_bound(player.pos_x as int, maze.spec_width(), block_size as int);
        lemma_pos_bound(player.pos_y as int, maze.spec_height(), block_size as int);
    }
    framebuffer.clear();
    let ghost cleared = *framebuffer;
    apply_texture(framebuffer, floor_texture);
    let ghost floor_fb = *framebuffer;
    proof {
        assert forall|px: int, py: int|
            #![trigger rm_index(old(framebuffer).spec_width(), px, py)]
            old(framebuffer).in_bounds(px, py) implies floor_fb.pixels()[floor_fb.pixel_index(
            px,
            py,
        )] == floor_texture.pixel_at(
            spec_scaled_coord(px, old(framebuffer).spec_width(), floor_texture.spec_width()),
            spec_scaled_coord(py, old(framebuffer).spec_height(), floor_texture.spec_height()),
        ) by {
            assert(cleared.pixel_index(px, py) == rm_index(old(framebuffer).spec_width(), px, py));
            assert(floor_fb.pixel_index(px, py) == rm_index(old(framebuffer).spec_width(), px, py));
            assert(cleared.in_bounds(px, py) == old(framebuffer).in_bounds(px, py));
        }
        assert(texture_applied(*old(framebuffer), floor_fb, *floor_texture));
    }
    render3d(
        framebuffer,
        maze,
        player,
        wall_texture,
        dirs,
        block_size,
        step_size,
        distance_to_plane,
    );
    let ghost walls_fb = *framebuffer;
    render(framebuffer, maze, player, minimap_xo, minimap_yo, minimap_size);
    proof {
        assert(columns_rendered(
            floor_fb,
            walls_fb,
            *maze,
            *player,
            *wall_texture,
            dirs@,
            block_size as int,
            step_size as int,
            distance_to_plane as int,
            old(framebuffer).spec_width(),
        ));
        assert(minimap_painted(
            walls_fb,
            *framebuffer,
            *maze,
            minimap_xo as int,
            minimap_yo as int,
            minimap_size as int / maze.spec_width(),
            minimap_size as int / maze.spec_height(),
            spec_marker_x(
                *player,
                minimap_xo as int,
                minimap_size as int,
                old(framebuffer).spec_width(),
            ),
            spec_marker_y(
                *player,
                minimap_yo as int,
                minimap_size as int,
                old(framebuffer).spec_height(),
            ),
        ));
    }
}

/// A position inside the grid's world extent is bounded by the largest
/// extent the accepted grid and block sizes allow.
proof fn lemma_pos_bound(pos: int, n: int, block: int)
    by (nonlinear_arith)
    requires
        0 <= pos,
        pos < n * block * 1024,
        1 <= n <= 4096,
        1 <= block <= 4096,
    ensures
        pos <= 0x4_0000_0000,
{
}

} // verus!

use maze_runner::framebuffer::Framebuffer;
use maze_runner::grid::Grid;
use maze_runner::intersect::{cast_ray3d, CastResult};
use maze_runner::player::{Intent, Player};
use maze_runner::render::{
    apply_texture, draw_cell, project_column, render, render3d, render_frame,
};
use maze_runner::texture::Texture;
use maze_runner::units::{Direction, SCALE};

fn rows(lines: &[&str]) -> Vec<Vec<char>> {
    lines.iter().map(|l| l.chars().collect()).collect()
}

fn small_maze() -> Grid {
    Grid::from_rows(rows(&["#####", "#   #", "#####"])).unwrap()
}

fn east() -> Direction {
    Direction { x_neg: false, x_mag: SCALE, y_neg: false, y_mag: 0 }
}

fn north() -> Direction {
    Direction { x_neg: false, x_mag: 0, y_neg: true, y_mag: SCALE }
}

fn fb(w: usize, h: usize) -> Framebuffer {
    Framebuffer::new(w, h)
}

fn solid_texture(w: usize, h: usize, color: u32) -> Texture {
    Texture::from_pixels(w, h, vec![color; w * h]).unwrap()
}

#[test]
fn grid_rejects_non_rectangular() {
    assert!(Grid::from_rows(rows(&["###", "# #", "## "])).is_some());
    assert!(Grid::from_rows(rows(&["###", "#  ", "#"])).is_none());
    assert!(Grid::from_rows(vec![]).is_none());
    assert!(Grid::from_rows(vec![vec![]]).is_none());
}

#[test]
fn grid_reads_cells() {
    let g = small_maze();
    assert_eq!(g.width(), 5);
    assert_eq!(g.height(), 3);
    assert_eq!(g.cell(0, 0), '#');
    assert_eq!(g.cell(1, 1), ' ');
    assert_eq!(g.cell(4, 1), '#');
}

#[test]
fn framebuffer_starts_black() {
    let fb = fb(4, 3);
    assert_eq!(fb.width(), 4);
    assert_eq!(fb.height(), 3);
    for y in 0..3 {
        for x in 0..4 {
            assert_eq!(fb.get_pixel(x, y), 0);
        }
    }
}

#[test]
fn point_writes_current_color() {
    let mut fb = fb(4, 4);
    fb.set_current_color(0xABCDEF);
    fb.point(2, 1);
    assert_eq!(fb.get_pixel(2, 1), 0xABCDEF);
    assert_eq!(fb.current_color(), 0xABCDEF);
}

#[test]
fn point_out_of_bounds_is_a_no_op() {
    let mut fb = fb(3, 3);
    fb.set_current_color(0x123456);
    fb.point(1, 1);
    fb.point(3, 0);
    fb.point(0, 3);
    fb.point(usize::MAX, usize::MAX);
    for y in 0..3 {
        for x in 0..3 {
            let expected = if (x, y) == (1, 1) { 0x123456 } else { 0 };
            assert_eq!(fb.get_pixel(x, y), expected);
        }
    }
}

#[test]
fn clear_paints_background_uniformly() {
    let mut fb = fb(5, 4);
    fb.set_background_color(0x336699);
    fb.set_current_color(0xFFFFFF);
    fb.point(2, 2);
    fb.point(4, 3);
    fb.clear();
    for y in 0..4 {
        for x in 0..5 {
            assert_eq!(fb.get_pixel(x, y), 0x336699);
        }
    }
    assert_eq!(fb.background_color(), 0x336699);
    assert_eq!(fb.current_color(), 0xFFFFFF);
}

#[test]
fn cast_hits_east_wall_within_one_step() {
    let maze = small_maze();
    let mut fb = fb(8, 8);
    let player = Player { pos_x: 15 * SCALE, pos_y: 15 * SCALE, a: 0, fov: 1072 };
    let step = 10 * SCALE;
    let r = cast_ray3d(&mut fb, &maze, &player, &east(), 10, step, false);
    match r {
        CastResult::Hit(hit) => {
            // The wall at column 4 starts at world x = 40, distance 25 from
            // the origin; fixed-step marching lands on the next multiple of
            // the step.
            assert_eq!(hit.distance, 30 * SCALE);
            assert!(20 * SCALE <= hit.distance && hit.distance <= 30 * SCALE);
            assert_eq!(hit.impact, '#');
            assert_eq!(hit.texture_x, SCALE / 2);
        }
        CastResult::Miss => panic!("expected a hit"),
    }
}

#[test]
fn cast_misses_on_open_grid() {
    let maze = Grid::from_rows(rows(&["   ", "   ", "   "])).unwrap();
    let mut fb = fb(8, 8);
    let player = Player { pos_x: 15 * SCALE, pos_y: 15 * SCALE, a: 0, fov: 1072 };
    let r = cast_ray3d(&mut fb, &maze, &player, &east(), 10, 10 * SCALE, false);
    assert!(matches!(r, CastResult::Miss));
}

#[test]
fn cast_step_larger_than_wall_tunnels() {
    // The documented accuracy trade-off: a step wider than one block can
    // march straight through a wall one cell thick.
    let maze = small_maze();
    let mut fb = fb(8, 8);
    let player = Player { pos_x: 15 * SCALE, pos_y: 15 * SCALE, a: 0, fov: 1072 };
    let r = cast_ray3d(&mut fb, &maze, &player, &east(), 10, 20 * SCALE, false);
    assert!(matches!(r, CastResult::Miss));
}

#[test]
fn integrate_rejects_candidate_outside_grid() {
    // An all-empty map has no wall to stop the move; leaving the grid is
    // rejected as non-traversable rather than looked up out of range.
    let maze = Grid::from_rows(rows(&[" "])).unwrap();
    let mut player = Player { pos_x: 5 * SCALE, pos_y: 5 * SCALE, a: 0, fov: 1072 };
    let west = Direction { x_neg: true, x_mag: SCALE, y_neg: false, y_mag: 0 };
    let intent = Intent { forward: SCALE as i64, turn: 0 };
    player.integrate(&intent, &west, &maze, 10);
    assert_eq!(player.pos_x, 5 * SCALE);
    assert_eq!(player.pos_y, 5 * SCALE);
    let east_intent = Intent { forward: SCALE as i64, turn: 0 };
    player.integrate(&east_intent, &east(), &maze, 10);
    // Moving east lands at world x 12, past the single cell's edge.
    assert_eq!(player.pos_x, 5 * SCALE);
}

#[test]
fn cast_texture_x_is_normalized() {
    let maze = small_maze();
    let mut fb = fb(8, 8);
    let dirs = [
        east(),
        north(),
        Direction { x_neg: true, x_mag: 724, y_neg: false, y_mag: 724 },
        Direction { x_neg: false, x_mag: 724, y_neg: true, y_mag: 724 },
        Direction { x_neg: false, x_mag: 3, y_neg: false, y_mag: 1020 },
    ];
    for d in dirs.iter() {
        let player = Player { pos_x: 17 * SCALE, pos_y: 13 * SCALE, a: 0, fov: 1072 };
        if let CastResult::Hit(hit) = cast_ray3d(&mut fb, &maze, &player, d, 10, SCALE / 4, false)
        {
            assert!(hit.texture_x < SCALE);
        }
    }
}

#[test]
fn cast_draw_line_plots_only_debug_color() {
    let maze = small_maze();
    let mut fb = fb(50, 30);
    let player = Player { pos_x: 15 * SCALE, pos_y: 15 * SCALE, a: 0, fov: 1072 };
    let _ = cast_ray3d(&mut fb, &maze, &player, &east(), 10, 10 * SCALE, true);
    assert_eq!(fb.current_color(), 0xFFDDDD);
    let mut plotted = 0;
    for y in 0..30 {
        for x in 0..50 {
            let c = fb.get_pixel(x, y);
            assert!(c == 0 || c == 0xFFDDDD);
            if c == 0xFFDDDD {
                plotted += 1;
            }
        }
    }
    assert!(plotted > 0);
}

#[test]
fn cast_ray_plots_the_debug_ray() {
    let maze = small_maze();
    let mut fb = fb(50, 30);
    let player = Player { pos_x: 15 * SCALE, pos_y: 15 * SCALE, a: 0, fov: 1072 };
    maze_runner::caster::cast_ray(&mut fb, &maze, &player, &east(), 10, 10 * SCALE);
    assert_eq!(fb.current_color(), 0xFFDDDD);
    // Samples at world x 15, 25 and 35 lie before the wall and are plotted.
    assert_eq!(fb.get_pixel(15, 15), 0xFFDDDD);
    assert_eq!(fb.get_pixel(25, 15), 0xFFDDDD);
    assert_eq!(fb.get_pixel(35, 15), 0xFFDDDD);
    assert_eq!(fb.get_pixel(45, 15), 0);
}

#[test]
fn integrate_blocked_by_adjacent_wall() {
    let maze = small_maze();
    let mut player = Player { pos_x: 15 * SCALE, pos_y: 15 * SCALE, a: 0, fov: 1072 };
    let intent = Intent { forward: SCALE as i64, turn: 0 };
    // Facing the wall row just above: the candidate cell is occupied.
    player.integrate(&intent, &north(), &maze, 10);
    assert_eq!(player.pos_x, 15 * SCALE);
    assert_eq!(player.pos_y, 15 * SCALE);
}

#[test]
fn integrate_moves_into_open_cell() {
    let maze = small_maze();
    let mut player = Player { pos_x: 15 * SCALE, pos_y: 15 * SCALE, a: 0, fov: 1072 };
    let intent = Intent { forward: SCALE as i64, turn: 0 };
    player.integrate(&intent, &east(), &maze, 10);
    assert_eq!(player.pos_x, 22 * SCALE);
    assert_eq!(player.pos_y, 15 * SCALE);
}

#[test]
fn integrate_zero_intent_is_idempotent() {
    let maze = small_maze();
    let mut player = Player { pos_x: 15 * SCALE, pos_y: 15 * SCALE, a: 321, fov: 1072 };
    let intent = Intent { forward: 0, turn: 0 };
    player.integrate(&intent, &east(), &maze, 10);
    assert_eq!(player.pos_x, 15 * SCALE);
    assert_eq!(player.pos_y, 15 * SCALE);
    assert_eq!(player.a, 321);
    assert_eq!(player.fov, 1072);
}

#[test]
fn integrate_rotation_commits_even_when_blocked() {
    let maze = small_maze();
    let mut player = Player { pos_x: 15 * SCALE, pos_y: 15 * SCALE, a: 100, fov: 1072 };
    let intent = Intent { forward: SCALE as i64, turn: -64 };
    player.integrate(&intent, &north(), &maze, 10);
    assert_eq!(player.a, 36);
    assert_eq!(player.pos_x, 15 * SCALE);
    assert_eq!(player.pos_y, 15 * SCALE);
}

#[test]
fn integrate_backward_mirrors_forward() {
    let maze = Grid::from_rows(rows(&["#####", "#   #", "#   #", "#####"])).unwrap();
    let mut player = Player { pos_x: 25 * SCALE, pos_y: 15 * SCALE, a: 0, fov: 1072 };
    let intent = Intent { forward: -(SCALE as i64), turn: 0 };
    player.integrate(&intent, &east(), &maze, 10);
    assert_eq!(player.pos_x, 18 * SCALE);
    assert_eq!(player.pos_y, 15 * SCALE);
}

#[test]
fn intent_aggregates_keys() {
    let i = Intent::from_inputs(true, false, false, false, false, false, 0, 0, 0, 0);
    assert_eq!(i.forward, SCALE as i64);
    assert_eq!(i.turn, 0);
    let i = Intent::from_inputs(false, true, false, false, false, false, 0, 0, 0, 0);
    assert_eq!(i.forward, -(SCALE as i64));
    let i = Intent::from_inputs(true, false, false, false, true, false, 0, 0, 0, 0);
    assert_eq!(i.forward, 2 * SCALE as i64);
}

#[test]
fn intent_aggregates_turns() {
    let i = Intent::from_inputs(false, false, true, false, false, false, 0, 0, 0, 0);
    assert_eq!(i.turn, -64);
    let i = Intent::from_inputs(false, false, false, true, false, false, 0, 0, 0, 0);
    assert_eq!(i.turn, 64);
    // Pointer travel of 10 pixels at 5 fixed-point radians per pixel.
    let i = Intent::from_inputs(false, false, false, false, false, false, 0, 0, 100, 90);
    assert_eq!(i.turn, 50);
    // Half stick deflection scales the turn rate, rounded toward zero.
    let i = Intent::from_inputs(false, false, false, false, false, false, -512, 0, 0, 0);
    assert_eq!(i.turn, -32);
}

#[test]
fn intent_stick_forward_is_proportional() {
    let i = Intent::from_inputs(false, false, false, false, false, false, 0, 512, 0, 0);
    assert_eq!(i.forward, 512);
}

#[test]
fn column_angle_spreads_the_field_of_view() {
    let player = Player { pos_x: 0, pos_y: 0, a: 1072, fov: 1072 };
    // The leftmost column looks half a field of view to the left of the
    // heading; the middle column looks straight ahead.
    assert_eq!(player.column_angle(0, 8), 536);
    assert_eq!(player.column_angle(4, 8), 1072);
    assert_eq!(player.column_angle(7, 8), 536 + 1072 * 7 / 8);
}

#[test]
fn final_heading_sums_rotation_first() {
    let player = Player { pos_x: 0, pos_y: 0, a: 1000, fov: 1072 };
    let intent = Intent { forward: 512, turn: -70 };
    assert_eq!(player.final_heading(&intent), 930);
}

#[test]
fn draw_cell_skips_empty_cells() {
    let mut fb = fb(6, 6);
    draw_cell(&mut fb, 1, 1, 3, 3, ' ');
    for y in 0..6 {
        for x in 0..6 {
            assert_eq!(fb.get_pixel(x, y), 0);
        }
    }
}

#[test]
fn draw_cell_fills_wall_rectangle() {
    let mut fb = fb(6, 6);
    draw_cell(&mut fb, 1, 2, 3, 2, '#');
    for y in 0..6 {
        for x in 0..6 {
            let inside = (1..4).contains(&x) && (2..4).contains(&y);
            let expected = if inside { 0xFFFFFF } else { 0 };
            assert_eq!(fb.get_pixel(x, y), expected);
        }
    }
}

#[test]
fn draw_cell_clips_at_buffer_edge() {
    let mut fb = fb(4, 4);
    draw_cell(&mut fb, 2, 2, 5, 5, '#');
    for y in 0..4 {
        for x in 0..4 {
            let inside = x >= 2 && y >= 2;
            let expected = if inside { 0xFFFFFF } else { 0 };
            assert_eq!(fb.get_pixel(x, y), expected);
        }
    }
}

#[test]
fn apply_texture_stretches_over_buffer() {
    let mut fb = fb(4, 4);
    let tex = Texture::from_pixels(2, 2, vec![0x11, 0x22, 0x33, 0x44]).unwrap();
    apply_texture(&mut fb, &tex);
    // Each buffer quadrant scales onto one texel.
    assert_eq!(fb.get_pixel(0, 0), 0x11);
    assert_eq!(fb.get_pixel(3, 0), 0x22);
    assert_eq!(fb.get_pixel(0, 3), 0x33);
    assert_eq!(fb.get_pixel(3, 3), 0x44);
    assert_eq!(fb.current_color(), 0x44);
}

#[test]
fn texture_rejects_mismatched_pixels() {
    assert!(Texture::from_pixels(2, 2, vec![0; 3]).is_none());
    assert!(Texture::from_pixels(0, 2, vec![]).is_none());
    assert!(Texture::from_pixels(2, 2, vec![0; 4]).is_some());
}

#[test]
fn project_column_zero_distance_fills_column() {
    let mut fb = fb(4, 4);
    let tex = solid_texture(2, 2, 0x777777);
    let hit = maze_runner::intersect::Intersect { distance: 0, impact: '#', texture_x: 0 };
    project_column(&mut fb, &tex, 1, &hit, 10, 100);
    for y in 0..4 {
        for x in 0..4 {
            let expected = if x == 1 { 0x777777 } else { 0 };
            assert_eq!(fb.get_pixel(x, y), expected);
        }
    }
}

#[test]
fn project_column_centers_stripe() {
    let mut fb = fb(4, 8);
    let tex = solid_texture(2, 2, 0x55AA55);
    // block_fp * dtp / distance = 10240 * 2 / 10240 = 2 pixels tall.
    let hit =
        maze_runner::intersect::Intersect { distance: 10 * SCALE, impact: '#', texture_x: 0 };
    project_column(&mut fb, &tex, 2, &hit, 10, 2);
    for y in 0..8 {
        for x in 0..4 {
            let inside = x == 2 && (3..5).contains(&y);
            let expected = if inside { 0x55AA55 } else { 0 };
            assert_eq!(fb.get_pixel(x, y), expected);
        }
    }
}

#[test]
fn render_marks_walls_and_player() {
    let maze = Grid::from_rows(rows(&["#"])).unwrap();
    let mut fb = fb(10, 10);
    let player = Player { pos_x: 5 * SCALE, pos_y: 5 * SCALE, a: 0, fov: 1072 };
    render(&mut fb, &maze, &player, 0, 0, 10);
    assert_eq!(fb.current_color(), 0xFF0000);
    // The single wall cell covers the whole minimap; the marker sits on top.
    for y in 0..10 {
        for x in 0..10 {
            let expected = if (x, y) == (5, 5) { 0xFF0000 } else { 0xFFFFFF };
            assert_eq!(fb.get_pixel(x, y), expected);
        }
    }
}

#[test]
fn render3d_paints_wall_stripes() {
    let maze = Grid::from_rows(rows(&["###", "# #", "###"])).unwrap();
    let mut fb = fb(4, 4);
    let player = Player { pos_x: 15 * SCALE, pos_y: 15 * SCALE, a: 0, fov: 1072 };
    let dirs = vec![east(), east(), east(), east()];
    let tex = solid_texture(2, 2, 0x0000FF);
    render3d(&mut fb, &maze, &player, &tex, &dirs, 10, 10 * SCALE, 2);
    // Each ray hits at distance 10, giving a 2-pixel stripe centered in
    // every column.
    for y in 0..4 {
        for x in 0..4 {
            let inside = (1..3).contains(&y);
            let expected = if inside { 0x0000FF } else { 0 };
            assert_eq!(fb.get_pixel(x, y), expected);
        }
    }
}

#[test]
fn render_frame_composes_passes() {
    let maze = small_maze();
    let mut fb = fb(8, 8);
    let player = Player { pos_x: 15 * SCALE, pos_y: 15 * SCALE, a: 0, fov: 1072 };
    let wall = solid_texture(2, 2, 0x0000FF);
    let floor = solid_texture(2, 2, 0x00FF00);
    let dirs = vec![east(); 8];
    render_frame(&mut fb, &maze, &player, &wall, &floor, &dirs, 10, 10 * SCALE, 3, 0, 0, 4);
    assert_eq!(fb.width(), 8);
    assert_eq!(fb.height(), 8);
    // The marker ends on top; the buffer holds floor, wall and minimap
    // colors only.
    for y in 0..8 {
        for x in 0..8 {
            let c = fb.get_pixel(x, y);
            assert!(c == 0x00FF00 || c == 0x0000FF || c == 0xFFFFFF || c == 0xFF0000);
        }
    }
}

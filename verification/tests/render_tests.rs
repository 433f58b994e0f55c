use raycaster::fixed::Vec2Fx;
use raycaster::player::Player;
use raycaster::render::{
    cast_ray, cast_walls, clear_color, draw_frame, draw_hsplit, draw_minimap, draw_number,
    draw_text, fill_rect, font5x7, id_to_color, mul_color, put_pixel, FRAME_BYTES, HEIGHT, WIDTH,
};
use raycaster::ui::{GameMode, UiState};
use raycaster::world::World;
use std::collections::HashMap;

fn rows(strs: &[&str]) -> Vec<Vec<u8>> {
    strs.iter().map(|s| s.as_bytes().to_vec()).collect()
}

fn box_world() -> World {
    World::from_level(
        String::from("box"),
        3,
        3,
        rows(&["111", "101", "111"]),
        Vec2Fx { x: 98304, y: 98304 },
        0,
        None,
        HashMap::new(),
    )
    .unwrap()
}

fn frame_buf() -> Vec<u8> {
    vec![0u8; FRAME_BYTES]
}

fn pixel(frame: &[u8], x: usize, y: usize) -> [u8; 4] {
    let i = (y * WIDTH + x) * 4;
    [frame[i], frame[i + 1], frame[i + 2], frame[i + 3]]
}

#[test]
fn center_ray_facing_east_hits_half_cell_away() {
    // 3x3 box, spawn at (1.5, 1.5) facing +X, center column (camera
    // offset zero): the ray crosses 0.5 cells of floor and hits the
    // wall at map column 2 on an X grid line.
    let w = box_world();
    let p = Player::from_world_spawn(&w, Vec2Fx { x: 65536, y: 0 });
    let h = cast_ray(&w, &p, 160);
    assert_eq!(h.map_x, 2);
    assert_eq!(h.map_y, 1);
    assert_eq!(h.side, 0);
    // Perpendicular distance is exactly 0.5 in fixed point.
    assert_eq!(h.perp, 32768);
}

#[test]
fn center_ray_facing_south_hits_y_side() {
    let w = box_world();
    let p = Player::from_world_spawn(&w, Vec2Fx { x: 0, y: 65536 });
    let h = cast_ray(&w, &p, 160);
    assert_eq!(h.map_x, 1);
    assert_eq!(h.map_y, 2);
    assert_eq!(h.side, 1);
    assert_eq!(h.perp, 32768);
}

#[test]
fn y_side_hits_are_darkened() {
    let w = box_world();
    let east = Player::from_world_spawn(&w, Vec2Fx { x: 65536, y: 0 });
    let south = Player::from_world_spawn(&w, Vec2Fx { x: 0, y: 65536 });
    let mut frame_e = frame_buf();
    let mut frame_s = frame_buf();
    let mut zb_e = vec![0i64; WIDTH];
    let mut zb_s = vec![0i64; WIDTH];
    cast_walls(&mut frame_e, &w, &east, &mut zb_e);
    cast_walls(&mut frame_s, &w, &south, &mut zb_s);
    assert_eq!(zb_e[160], 32768);
    assert_eq!(zb_s[160], 32768);
    // Same wall id and distance; the Y-side hit must come out darker
    // on every color channel that is lit.
    let pe = pixel(&frame_e, 160, 100);
    let ps = pixel(&frame_s, 160, 100);
    for k in 0..3 {
        if pe[k] > 0 {
            assert!(ps[k] < pe[k], "channel {k}: {} !< {}", ps[k], pe[k]);
        }
    }
}

#[test]
fn depth_buffer_is_deterministic() {
    let w = box_world();
    let p = Player::from_world_spawn(&w, Vec2Fx { x: 65536, y: 0 });
    let mut f1 = frame_buf();
    let mut f2 = frame_buf();
    let mut z1 = vec![0i64; WIDTH];
    let mut z2 = vec![0i64; WIDTH];
    cast_walls(&mut f1, &w, &p, &mut z1);
    cast_walls(&mut f2, &w, &p, &mut z2);
    assert_eq!(z1, z2);
    assert_eq!(f1, f2);
}

#[test]
fn ray_from_outside_the_map_terminates() {
    let w = box_world();
    let mut p = Player::from_world_spawn(&w, Vec2Fx { x: 65536, y: 0 });
    p.pos = Vec2Fx { x: -20 * 65536, y: -7 * 65536 };
    let h = cast_ray(&w, &p, 160);
    assert!(w.is_wall(h.map_x, h.map_y));
}

#[test]
fn put_pixel_writes_little_endian() {
    let mut f = frame_buf();
    put_pixel(&mut f, 3, 2, 0xaabbccdd);
    assert_eq!(pixel(&f, 3, 2), [0xdd, 0xcc, 0xbb, 0xaa]);
    assert_eq!(pixel(&f, 4, 2), [0, 0, 0, 0]);
}

#[test]
fn clear_fills_every_pixel() {
    let mut f = frame_buf();
    clear_color(&mut f, 0x01020304);
    assert_eq!(pixel(&f, 0, 0), [4, 3, 2, 1]);
    assert_eq!(pixel(&f, 319, 199), [4, 3, 2, 1]);
    assert_eq!(pixel(&f, 160, 100), [4, 3, 2, 1]);
}

#[test]
fn hsplit_fills_band_only() {
    let mut f = frame_buf();
    draw_hsplit(&mut f, 10, 20, 0x01020304);
    assert_eq!(pixel(&f, 5, 10), [4, 3, 2, 1]);
    assert_eq!(pixel(&f, 5, 19), [4, 3, 2, 1]);
    assert_eq!(pixel(&f, 5, 9), [0, 0, 0, 0]);
    assert_eq!(pixel(&f, 5, 20), [0, 0, 0, 0]);
    // Out-of-range bands clamp instead of erroring.
    draw_hsplit(&mut f, -50, 1, 0x05060708);
    assert_eq!(pixel(&f, 0, 0), [8, 7, 6, 5]);
}

#[test]
fn fill_rect_clips_to_frame() {
    let mut f = frame_buf();
    fill_rect(&mut f, 316, 196, 10, 10, 0x01020304);
    assert_eq!(pixel(&f, 316, 196), [4, 3, 2, 1]);
    assert_eq!(pixel(&f, 319, 199), [4, 3, 2, 1]);
    assert_eq!(pixel(&f, 315, 196), [0, 0, 0, 0]);
    assert_eq!(pixel(&f, 315, 195), [0, 0, 0, 0]);
}

#[test]
fn palette_ids_are_distinct_and_fallback_is_white() {
    let mut seen = Vec::new();
    for id in 1..=9u8 {
        let c = id_to_color(id);
        assert!(!seen.contains(&c));
        seen.push(c);
    }
    assert_eq!(id_to_color(0), 0xffffffff);
    assert_eq!(id_to_color(200), 0xffffffff);
}

#[test]
fn mul_color_scales_rgb_keeps_alpha() {
    // Half intensity halves the three low channels and keeps the high
    // byte.
    assert_eq!(mul_color(0x010203ff, 32768), 0x0101017f);
    assert_eq!(mul_color(0xcc4444ff, 65536), 0xcc4444ff);
    assert_eq!(mul_color(0xcc4444ff, 0), 0xcc000000);
}

#[test]
fn draw_text_paints_white_pixels() {
    let mut f = frame_buf();
    draw_text(&mut f, 0, 0, "I");
    // The 'I' glyph's top row is five set bits.
    for x in 0..5 {
        assert_eq!(pixel(&f, x, 0), [255, 255, 255, 255]);
    }
    assert_eq!(pixel(&f, 5, 0), [0, 0, 0, 0]);
}

#[test]
fn draw_number_draws_digits() {
    let mut f = frame_buf();
    draw_number(&mut f, 0, 0, 10);
    // '1' then '0', six pixels apart; both glyphs start with a set
    // pixel somewhere in their box.
    let mut any1 = false;
    let mut any0 = false;
    for y in 0..7 {
        for x in 0..5 {
            if pixel(&f, x, y) == [255, 255, 255, 255] {
                any1 = true;
            }
            if pixel(&f, x + 6, y) == [255, 255, 255, 255] {
                any0 = true;
            }
        }
    }
    assert!(any1 && any0);
}

#[test]
fn draw_frame_welcome_and_playing() {
    let w = World::default_level();
    // Face north: the nearest wall is 1.5 cells away, so no wall
    // column reaches the frame's top row.
    let p = Player::from_world_spawn(&w, Vec2Fx { x: 0, y: -65536 });
    let mut f = frame_buf();
    let ui = UiState { mode: GameMode::Welcome, fps: 0 };
    draw_frame(&mut f, &w, &p, &ui);
    assert_eq!(f.len(), FRAME_BYTES);
    let ui = UiState { mode: GameMode::Playing, fps: 60 };
    draw_frame(&mut f, &w, &p, &ui);
    assert_eq!(f.len(), FRAME_BYTES);
    // The ceiling band shows where no wall was drawn: top-left corner.
    assert_eq!(pixel(&f, 0, 0), [0xff, 0x40, 0x30, 0x30]);
    let ui = UiState { mode: GameMode::Success, fps: 60 };
    draw_frame(&mut f, &w, &p, &ui);
    assert_eq!(f.len(), FRAME_BYTES);
}

#[test]
fn wall_column_height_shrinks_with_distance() {
    // A long corridor looking +X; count lit wall pixels in the center
    // column for a near and a far player position.
    let w = World::from_level(
        String::from("corridor"),
        6,
        3,
        rows(&["111111", "100001", "111111"]),
        Vec2Fx { x: 98304, y: 98304 },
        0,
        None,
        HashMap::new(),
    )
    .unwrap();
    let mut near = Player::from_world_spawn(&w, Vec2Fx { x: 65536, y: 0 });
    near.pos = Vec2Fx { x: 275251, y: 98304 };  // 0.8 cells from the east wall
    let mut far = near;
    far.pos = Vec2Fx { x: 98304, y: 98304 };  // 3.5 cells from it
    let count = |pl: &Player| {
        let mut f = frame_buf();
        let mut z = vec![0i64; WIDTH];
        cast_walls(&mut f, &w, pl, &mut z);
        (0..HEIGHT).filter(|&y| pixel(&f, 160, y) != [0, 0, 0, 0]).count()
    };
    // At x = 1.5 the east wall is 0.5 away (column fills the screen);
    // at x ~= 1.07 it is ~1.43 away and the column is shorter.
    let tall = count(&near);
    let short = count(&far);
    assert_eq!(tall, HEIGHT);
    assert!(short < tall);
    assert!(short > 0);
}

#[test]
fn minimap_blocks_marker_and_confinement() {
    let w = World::default_level();
    let p = Player::from_world_spawn(&w, Vec2Fx { x: 65536, y: 0 });
    let mut f = frame_buf();
    draw_minimap(&mut f, &w, &p);
    let ox = 320 - 4 - 16 * 4;
    // Top-left cell is wall id 1: its palette color dimmed to 0.6.
    assert_eq!(pixel(&f, ox, 4), [0x98, 0x28, 0x28, 0xcc]);
    // Cell (1,1) is floor: the translucent dark block.
    assert_eq!(pixel(&f, ox + 4, 8), [0x88, 0, 0, 0]);
    // The 3x3 white player marker sits at the spawn cell (2,2).
    assert_eq!(pixel(&f, ox + 8, 12), [255, 255, 255, 255]);
    assert_eq!(pixel(&f, ox + 10, 14), [255, 255, 255, 255]);
    // One past the marker its cell's own block shows again; the spawn
    // cell carries wall id 2 in the authored grid.
    assert_eq!(pixel(&f, ox + 11, 12), [0x98, 0x28, 0x7a, 0x44]);
    // Outside the minimap rectangle the frame is untouched.
    assert_eq!(pixel(&f, 0, 0), [0, 0, 0, 0]);
    assert_eq!(pixel(&f, ox - 1, 10), [0, 0, 0, 0]);
    assert_eq!(pixel(&f, ox, 4 + 32), [0, 0, 0, 0]);
}

#[test]
fn font_folds_case_and_blanks_unknown() {
    assert_eq!(font5x7('t'), font5x7('T'));
    assert_eq!(font5x7('a'), font5x7('A'));
    assert_eq!(font5x7('T'), [0b11111, 0b00100, 0b00100, 0b00100, 0b00100, 0b00100, 0b00100]);
    assert_eq!(font5x7('q'), [0u8; 7]);
}

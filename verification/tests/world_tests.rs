use raycaster::fixed::{CellPos, Vec2Fx};
use raycaster::world::{texture_from_bytes, LevelError, Texture, TileMap, World};
use std::collections::HashMap;

fn rows(strs: &[&str]) -> Vec<Vec<u8>> {
    strs.iter().map(|s| s.as_bytes().to_vec()).collect()
}

fn small_world() -> World {
    World::from_level(
        String::from("test"),
        3,
        3,
        rows(&["111", "101", "111"]),
        Vec2Fx { x: 98304, y: 98304 },
        0,
        None,
        HashMap::new(),
    )
    .unwrap()
}

#[test]
fn outside_coordinates_are_walls() {
    let w = small_world();
    assert!(w.is_wall(-1, 0));
    assert!(w.is_wall(0, -1));
    assert!(w.is_wall(3, 1));
    assert!(w.is_wall(1, 3));
    assert!(w.is_wall(-100, -100));
    assert!(w.is_wall(1000000, 2));
    assert_eq!(w.tile_id(-1, -1), 1);
}

#[test]
fn inbounds_tiles_match_authored_grid() {
    let w = World::from_level(
        String::from("grid"),
        4,
        2,
        rows(&["0123", "9E7X"]),
        Vec2Fx { x: 0, y: 0 },
        0,
        None,
        HashMap::new(),
    )
    .unwrap();
    assert_eq!(w.tile_id(0, 0), 0);
    assert_eq!(w.tile_id(1, 0), 1);
    assert_eq!(w.tile_id(2, 0), 2);
    assert_eq!(w.tile_id(3, 0), 3);
    assert_eq!(w.tile_id(0, 1), 9);
    // 'E' is floor and records the exit; unknown symbols fall back to wall 1.
    assert_eq!(w.tile_id(1, 1), 0);
    assert_eq!(w.tile_id(2, 1), 7);
    assert_eq!(w.tile_id(3, 1), 1);
    assert_eq!(w.exit_tile, Some(CellPos { x: 1, y: 1 }));
}

#[test]
fn tilemap_idx_and_tile() {
    let m = TileMap { width: 3, height: 2, tiles: vec![1, 2, 3, 4, 5, 6] };
    assert_eq!(m.idx(0, 0), Some(0));
    assert_eq!(m.idx(2, 1), Some(5));
    assert_eq!(m.idx(3, 0), None);
    assert_eq!(m.idx(0, 2), None);
    assert_eq!(m.idx(-1, 0), None);
    assert_eq!(m.tile(1, 1), 5);
    assert_eq!(m.tile(-1, 1), 1);
    assert_eq!(m.tile(1, 7), 1);
}

#[test]
fn row_count_mismatch_fails() {
    let r = World::from_level(
        String::from("bad"),
        3,
        3,
        rows(&["111", "101"]),
        Vec2Fx { x: 0, y: 0 },
        0,
        None,
        HashMap::new(),
    );
    assert_eq!(r.err(), Some(LevelError::RowCountMismatch));
}

#[test]
fn row_length_mismatch_fails() {
    let r = World::from_level(
        String::from("bad"),
        3,
        3,
        rows(&["111", "10", "111"]),
        Vec2Fx { x: 0, y: 0 },
        0,
        None,
        HashMap::new(),
    );
    assert_eq!(r.err(), Some(LevelError::RowLengthMismatch(1)));
}

#[test]
fn bad_dimensions_fail() {
    let r = World::from_level(
        String::from("bad"),
        0,
        1,
        rows(&[""]),
        Vec2Fx { x: 0, y: 0 },
        0,
        None,
        HashMap::new(),
    );
    assert_eq!(r.err(), Some(LevelError::BadDimensions));
}

#[test]
fn explicit_exit_overrides_scanned_exit() {
    let w = World::from_level(
        String::from("ex"),
        3,
        1,
        rows(&["0E0"]),
        Vec2Fx { x: 0, y: 0 },
        0,
        Some(CellPos { x: 2, y: 0 }),
        HashMap::new(),
    )
    .unwrap();
    assert_eq!(w.exit_tile, Some(CellPos { x: 2, y: 0 }));
}

#[test]
fn last_exit_symbol_wins() {
    let w = World::from_level(
        String::from("ex"),
        3,
        2,
        rows(&["E00", "0E0"]),
        Vec2Fx { x: 0, y: 0 },
        0,
        None,
        HashMap::new(),
    )
    .unwrap();
    assert_eq!(w.exit_tile, Some(CellPos { x: 1, y: 1 }));
}

#[test]
fn default_level_shape() {
    let w = World::default_level();
    assert_eq!(w.map.width, 16);
    assert_eq!(w.map.height, 8);
    assert_eq!(w.map.tiles.len(), 128);
    assert_eq!(w.player_spawn, Vec2Fx { x: 163840, y: 163840 });
    assert_eq!(w.player_dir_deg, 0);
    assert_eq!(w.exit_tile, Some(CellPos { x: 14, y: 7 }));
    assert_eq!(w.name, "default");
    assert_eq!(w.textures.len(), 0);
    // Borders are wall, the interior block rows carry their ids.
    assert_eq!(w.tile_id(0, 0), 1);
    assert_eq!(w.tile_id(2, 2), 2);
    assert_eq!(w.tile_id(9, 2), 3);
    assert_eq!(w.tile_id(5, 5), 4);
    assert_eq!(w.tile_id(1, 1), 0);
    assert_eq!(w.tile_id(14, 7), 0);
}

#[test]
fn exit_detection_is_exact() {
    let w = World::from_level(
        String::from("exit"),
        5,
        5,
        rows(&["11111", "10001", "10001", "100E1", "11111"]),
        Vec2Fx { x: 0, y: 0 },
        0,
        None,
        HashMap::new(),
    )
    .unwrap();
    assert_eq!(w.exit_tile, Some(CellPos { x: 3, y: 3 }));
    let fx = |v: f64| (v * 65536.0) as i64;
    assert!(w.is_on_exit_tile(fx(3.5), fx(3.5)));
    assert!(w.is_on_exit_tile(fx(3.0), fx(3.999)));
    // Adjacent cells in every direction are not the exit.
    assert!(!w.is_on_exit_tile(fx(2.5), fx(3.5)));
    assert!(!w.is_on_exit_tile(fx(4.5), fx(3.5)));
    assert!(!w.is_on_exit_tile(fx(3.5), fx(2.5)));
    assert!(!w.is_on_exit_tile(fx(3.5), fx(4.5)));
}

#[test]
fn no_exit_means_never_on_exit() {
    let w = small_world();
    assert_eq!(w.exit_tile, None);
    assert!(!w.is_on_exit_tile(98304, 98304));
}

#[test]
fn texture_packs_rgba_bytes_little_endian() {
    let t = Texture::from_rgba8(2, 1, vec![1, 2, 3, 4, 5, 6, 7, 8]).unwrap();
    assert_eq!(t.w, 2);
    assert_eq!(t.h, 1);
    assert_eq!(t.pixels, vec![0x04030201, 0x08070605]);
}

#[test]
fn texture_rejects_wrong_buffer_size() {
    assert!(Texture::from_rgba8(2, 2, vec![0; 15]).is_none());
}

#[test]
fn texture_decodes_png_bytes() {
    // A 2x1 image with two known pixels, encoded to PNG and decoded back
    // through the library.
    let img = image::RgbaImage::from_raw(2, 1, vec![10, 20, 30, 255, 40, 50, 60, 255]).unwrap();
    let mut png: Vec<u8> = Vec::new();
    let dynimg = image::DynamicImage::ImageRgba8(img);
    dynimg
        .write_to(&mut std::io::Cursor::new(&mut png), image::ImageOutputFormat::Png)
        .unwrap();
    let t = texture_from_bytes(&png).expect("png should decode");
    assert_eq!(t.w, 2);
    assert_eq!(t.h, 1);
    assert_eq!(t.pixels, vec![0xff1e140a, 0xff3c3228]);
}

#[test]
fn texture_decode_failure_is_none() {
    assert!(texture_from_bytes(&vec![1, 2, 3, 4]).is_none());
}

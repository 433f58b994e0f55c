use raycaster::fixed::Vec2Fx;
use raycaster::player::{collides, turn_units, MoveIntents, Player, RADIUS, SPEED_MOVE, SPEED_ROT};
use raycaster::world::World;
use std::collections::HashMap;

fn rows(strs: &[&str]) -> Vec<Vec<u8>> {
    strs.iter().map(|s| s.as_bytes().to_vec()).collect()
}

fn open_arena() -> World {
    World::from_level(
        String::from("arena"),
        8,
        8,
        rows(&[
            "11111111", "10000001", "10000001", "10000001", "10000001", "10000001", "10000001",
            "11111111",
        ]),
        Vec2Fx { x: 294912, y: 294912 },
        0,
        None,
        HashMap::new(),
    )
    .unwrap()
}

fn fxv(v: f64) -> i64 {
    (v * 65536.0) as i64
}

fn no_intents() -> MoveIntents {
    MoveIntents {
        forward: false,
        back: false,
        strafe_left: false,
        strafe_right: false,
        rotate_left: false,
        rotate_right: false,
    }
}

#[test]
fn spawn_pose_and_parameters() {
    let w = open_arena();
    let p = Player::from_world_spawn(&w, Vec2Fx { x: 65536, y: 0 });
    assert_eq!(p.pos, Vec2Fx { x: 294912, y: 294912 });
    assert_eq!(p.dir, Vec2Fx { x: 65536, y: 0 });
    // plane = perpendicular of dir scaled by ~0.9.
    assert_eq!(p.plane, Vec2Fx { x: 0, y: 58982 });
    assert_eq!(p.speed_move, SPEED_MOVE);
    assert_eq!(p.speed_rot, SPEED_ROT);
    assert_eq!(p.radius, RADIUS);
}

#[test]
fn rotation_round_trip_restores_pose() {
    let w = open_arena();
    let mut p = Player::from_world_spawn(&w, Vec2Fx { x: 65536, y: 0 });
    let dir0 = p.dir;
    let plane0 = p.plane;
    // cos/sin of 30 degrees in fixed point, truncated toward zero.
    let c: i64 = 56755;
    let s: i64 = 32768;
    p.rotate(c, s);
    p.rotate(c, -s);
    let tol = 16.0 / 65536.0;
    assert!(((p.dir.x - dir0.x).abs() as f64) / 65536.0 < tol);
    assert!(((p.dir.y - dir0.y).abs() as f64) / 65536.0 < tol);
    assert!(((p.plane.x - plane0.x).abs() as f64) / 65536.0 < tol);
    assert!(((p.plane.y - plane0.y).abs() as f64) / 65536.0 < tol);
}

#[test]
fn rotation_keeps_dir_and_plane_perpendicular() {
    let w = open_arena();
    let mut p = Player::from_world_spawn(&w, Vec2Fx { x: 65536, y: 0 });
    let dot = |p: &Player| {
        (p.dir.x as f64 * p.plane.x as f64 + p.dir.y as f64 * p.plane.y as f64)
            / (65536.0 * 65536.0)
    };
    assert!(dot(&p).abs() < 1e-3);
    for _ in 0..8 {
        p.rotate(56755, 32768);
        assert!(dot(&p).abs() < 1e-2);
    }
}

#[test]
fn diagonal_movement_is_normalized() {
    let w = open_arena();
    let mut p = Player::from_world_spawn(&w, Vec2Fx { x: 65536, y: 0 });
    let start = p.pos;
    let mut intents = no_intents();
    intents.forward = true;
    intents.strafe_right = true;
    let dt: i64 = 6554;  // ~0.1 s
    p.update(&w, &intents, dt);
    let dx = (p.pos.x - start.x) as f64 / 65536.0;
    let dy = (p.pos.y - start.y) as f64 / 65536.0;
    let dist = (dx * dx + dy * dy).sqrt();
    let expected = 3.0 * (dt as f64 / 65536.0);  // speed * dt = 0.30
    assert!((dist - expected).abs() < 0.005, "dist {dist} expected {expected}");
    // Without normalization the diagonal would cover sqrt(2) * speed * dt.
    assert!(dist < expected * 1.1);
}

#[test]
fn single_axis_movement_covers_speed_dt() {
    let w = open_arena();
    let mut p = Player::from_world_spawn(&w, Vec2Fx { x: 65536, y: 0 });
    let start = p.pos;
    let mut intents = no_intents();
    intents.forward = true;
    p.update(&w, &intents, 6554);
    let dx = (p.pos.x - start.x) as f64 / 65536.0;
    assert!((dx - 0.30).abs() < 0.005);
    assert_eq!(p.pos.y, start.y);
}

#[test]
fn footprint_never_overlaps_walls_over_a_scripted_run() {
    let w = open_arena();
    let mut p = Player::from_world_spawn(&w, Vec2Fx { x: 65536, y: 0 });
    assert!(!collides(&w, p.pos, p.radius));
    let mut fwd = no_intents();
    fwd.forward = true;
    let mut right = no_intents();
    right.strafe_right = true;
    let mut back = no_intents();
    back.back = true;
    // March into the east wall, slide along it, and wander back.
    for _ in 0..60 {
        p.update(&w, &fwd, 6554);
        assert!(!collides(&w, p.pos, p.radius));
    }
    for _ in 0..40 {
        p.update(&w, &right, 6554);
        assert!(!collides(&w, p.pos, p.radius));
    }
    p.rotate(46340, 46340);  // turn 45 degrees
    for _ in 0..40 {
        p.update(&w, &fwd, 6554);
        assert!(!collides(&w, p.pos, p.radius));
    }
    for _ in 0..20 {
        p.update(&w, &back, 6554);
        assert!(!collides(&w, p.pos, p.radius));
    }
}

#[test]
fn blocked_movement_leaves_position_unchanged() {
    let w = open_arena();
    // Stand just inside the west wall and push into it.
    let mut p = Player::from_world_spawn(&w, Vec2Fx { x: 65536, y: 0 });
    p.pos = Vec2Fx { x: 65536 + RADIUS + 100, y: 294912 };
    let mut intents = no_intents();
    intents.back = true;  // facing +X, backward pushes into the west wall
    let before = p.pos;
    p.update(&w, &intents, 6554);
    assert_eq!(p.pos.x, before.x);
    assert_eq!(p.pos.y, before.y);
}

#[test]
fn diagonal_push_against_wall_slides() {
    let w = open_arena();
    let mut p = Player::from_world_spawn(&w, Vec2Fx { x: 65536, y: 0 });
    // Flush against the east wall, pushing forward (+X) and strafing
    // right (+Y): the X move is blocked, the Y move slides.
    p.pos = Vec2Fx { x: 7 * 65536 - RADIUS - 50, y: 294912 };
    let mut intents = no_intents();
    intents.forward = true;
    intents.strafe_right = true;
    let before = p.pos;
    p.update(&w, &intents, 6554);
    assert_eq!(p.pos.x, before.x);
    assert!(p.pos.y > before.y);
    assert!(!collides(&w, p.pos, p.radius));
}

#[test]
fn collides_detects_footprint_overlap() {
    let w = open_arena();
    assert!(!collides(&w, Vec2Fx { x: fxv(3.5), y: fxv(3.5) }, RADIUS));
    // Center close enough to the west wall that the footprint spills in.
    assert!(collides(&w, Vec2Fx { x: fxv(1.1), y: fxv(3.5) }, RADIUS));
    // Outside the map everything is wall.
    assert!(collides(&w, Vec2Fx { x: fxv(-2.0), y: fxv(-2.0) }, RADIUS));
}

#[test]
fn movement_step_exact_values() {
    let w = open_arena();
    let p = Player::from_world_spawn(&w, Vec2Fx { x: 65536, y: 0 });
    let mut fwd = no_intents();
    fwd.forward = true;
    // speed * dt = 3.0 * 0.1000; every rounding step is pinned.
    assert_eq!(p.movement_step(&fwd, 6554), (19662, 0));
    let mut diag = fwd;
    diag.strafe_right = true;
    assert_eq!(p.movement_step(&diag, 6554), (13903, 13903));
    assert_eq!(p.movement_step(&no_intents(), 6554), (0, 0));
}

#[test]
fn turn_units_signs() {
    let mut i = no_intents();
    assert_eq!(turn_units(&i), 0);
    i.rotate_left = true;
    assert_eq!(turn_units(&i), -1);
    i.rotate_right = true;
    assert_eq!(turn_units(&i), 0);
    i.rotate_left = false;
    assert_eq!(turn_units(&i), 1);
}

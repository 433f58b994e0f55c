//! The player: a pose (position, facing vector, camera-plane vector)
//! with a rigid rotation step and an axis-separated, footprint-tested
//! movement integrator. Movement that would land the footprint on a
//! wall is dropped per axis, which is what lets the player slide along
//! walls when moving diagonally into them.

use crate::fixed::{
    abs_i, fx_div, fx_div_spec, fx_floor, fx_floor_spec, fx_mul, fx_mul_spec, isqrt, isqrt_spec,
    lemma_fx_div_unit, lemma_fx_mul_abs, lemma_isqrt_bounds, Vec2Fx,
};
use crate::world::World;
use vstd::prelude::*;

verus! {

/// Default linear speed, cells per second in fixed point (3.0).
pub const SPEED_MOVE: i64 = 196608;

/// Default angular speed, radians per second in fixed point (2.5).
pub const SPEED_ROT: i64 = 163840;

/// Default collision radius, cells in fixed point (~0.2).
pub const RADIUS: i64 = 13107;

/// Camera-plane scale: ~0.90 of a unit, encoding a ~66 degree field of
/// view.
pub const PLANE_SCALE: i64 = 58982;

/// Position magnitude bound that keeps every movement and traversal
/// computation inside an `i64`.
pub const POS_LIMIT: i64 = 0x1000_0000_0000;

/// Direction-component bound with the same purpose.
pub const DIR_LIMIT: i64 = 0x100_0000;

/// Candidate positions handed to the footprint test may stand one step
/// beyond `POS_LIMIT`; the test tolerates up to twice the limit.
pub const COLLIDE_LIMIT: i64 = 0x2000_0000_0000;

/// The discrete movement intents a frame delivers.
#[derive(Clone, Copy, PartialEq, Eq, Structural, Debug)]
pub struct MoveIntents {
    pub forward: bool,
    pub back: bool,
    pub strafe_left: bool,
    pub strafe_right: bool,
    pub rotate_left: bool,
    pub rotate_right: bool,
}

/// The mutable pose and its motion parameters.
#[derive(Clone, Copy, PartialEq, Eq, Structural, Debug)]
pub struct Player {
    pub pos: Vec2Fx,
    pub dir: Vec2Fx,
    pub plane: Vec2Fx,
    pub speed_move: i64,
    pub speed_rot: i64,
    pub radius: i64,
}

/// A circular footprint of the given radius centered at `(x, y)` covers
/// some wall cell: the discretized collision test enumerates every cell
/// the footprint's bounding box touches.
pub open spec fn collides_spec(w: World, x: int, y: int, r: int) -> bool {
    exists|cx: int, cy: int|
        fx_floor_spec(x - r) <= cx <= fx_floor_spec(x + r) && fx_floor_spec(y - r) <= cy
            <= fx_floor_spec(y + r) && #[trigger] w.is_wall_at(cx, cy)
}

/// Tests the footprint of a candidate position against the world.
pub fn collides(world: &World, pos: Vec2Fx, radius: i64) -> (b: bool)
    requires
        world.wf(),
        0 <= radius,
        -COLLIDE_LIMIT <= pos.x - radius,
        pos.x + radius <= COLLIDE_LIMIT,
        -COLLIDE_LIMIT <= pos.y - radius,
        pos.y + radius <= COLLIDE_LIMIT,
    ensures
        b == collides_spec(*world, pos.x as int, pos.y as int, radius as int),
{
    let min_x = fx_floor(pos.x - radius);
    let max_x = fx_floor(pos.x + radius);
    let min_y = fx_floor(pos.y - radius);
    let max_y = fx_floor(pos.y + radius);
    proof {
        vstd::arithmetic::div_mod::lemma_div_is_ordered(
            -(COLLIDE_LIMIT as int),
            pos.x - radius,
            65536,
        );
        vstd::arithmetic::div_mod::lemma_div_is_ordered(pos.x + radius, COLLIDE_LIMIT as int, 65536);
        vstd::arithmetic::div_mod::lemma_div_is_ordered(
            -(COLLIDE_LIMIT as int),
            pos.y - radius,
            65536,
        );
        vstd::arithmetic::div_mod::lemma_div_is_ordered(pos.y + radius, COLLIDE_LIMIT as int, 65536);
    }
    let mut cy = min_y;
    while cy <= max_y
        invariant
            world.wf(),
            min_x == fx_floor_spec(pos.x - radius),
            max_x == fx_floor_spec(pos.x + radius),
            min_y == fx_floor_spec(pos.y - radius),
            max_y == fx_floor_spec(pos.y + radius),
            -COLLIDE_LIMIT <= min_y <= cy,
            max_y <= COLLIDE_LIMIT,
            -COLLIDE_LIMIT <= min_x,
            max_x <= COLLIDE_LIMIT,
            forall|ax: int, ay: int|
                min_x <= ax <= max_x && min_y <= ay < cy ==> !(#[trigger] world.is_wall_at(ax, ay)),
        decreases max_y + 1 - cy,
    {
        let mut cx = min_x;
        while cx <= max_x
            invariant
                world.wf(),
                min_x == fx_floor_spec(pos.x - radius),
                max_x == fx_floor_spec(pos.x + radius),
                min_y == fx_floor_spec(pos.y - radius),
                max_y == fx_floor_spec(pos.y + radius),
                -COLLIDE_LIMIT <= min_x <= cx,
                max_x <= COLLIDE_LIMIT,
                -COLLIDE_LIMIT <= min_y <= cy <= max_y <= COLLIDE_LIMIT,
                forall|ax: int, ay: int|
                    min_x <= ax <= max_x && min_y <= ay < cy ==> !(#[trigger] world.is_wall_at(
                        ax,
                        ay,
                    )),
                forall|ax: int| min_x <= ax < cx ==> !(#[trigger] world.is_wall_at(ax, cy as int)),
            decreases max_x + 1 - cx,
        {
            if world.is_wall(cx, cy) {
                return true;
            }
            cx = cx + 1;
        }
        cy = cy + 1;
    }
    false
}

/// The signed turn the discrete intents ask for: rotate-right is
/// positive, rotate-left negative.
pub open spec fn turn_units_spec(input: MoveIntents) -> int {
    (if input.rotate_right {
        1int
    } else {
        0int
    }) - (if input.rotate_left {
        1int
    } else {
        0int
    })
}

/// Discrete turn intent as a signed unit count.
pub fn turn_units(input: &MoveIntents) -> (t: i64)
    ensures
        t == turn_units_spec(*input),
        -1 <= t <= 1,
{
    let mut t: i64 = 0;
    if input.rotate_left {
        t = t - 1;
    }
    if input.rotate_right {
        t = t + 1;
    }
    t
}

/// The unnormalized movement basis: forward adds the facing vector,
/// backward subtracts it, and the strafe intents add the two vectors
/// perpendicular to it.
pub open spec fn move_basis_spec(p: Player, input: MoveIntents) -> (int, int) {
    let fx = (if input.forward {
        p.dir.x as int
    } else {
        0int
    }) + (if input.back {
        -(p.dir.x as int)
    } else {
        0int
    }) + (if input.strafe_left {
        p.dir.y as int
    } else {
        0int
    }) + (if input.strafe_right {
        -(p.dir.y as int)
    } else {
        0int
    });
    let fy = (if input.forward {
        p.dir.y as int
    } else {
        0int
    }) + (if input.back {
        -(p.dir.y as int)
    } else {
        0int
    }) + (if input.strafe_left {
        -(p.dir.x as int)
    } else {
        0int
    }) + (if input.strafe_right {
        p.dir.x as int
    } else {
        0int
    });
    (fx, fy)
}

/// The movement basis scaled to (fixed-point) unit length, so a diagonal
/// intent moves no faster than a single-axis one; the zero basis stays
/// zero.
pub open spec fn unit_move_spec(mx: int, my: int) -> (int, int) {
    if mx == 0 && my == 0 {
        (0int, 0int)
    } else {
        let l = isqrt_spec(mx * mx + my * my);
        (fx_div_spec(mx, l), fx_div_spec(my, l))
    }
}

/// The scaled movement basis never exceeds one unit per component:
/// normalization keeps a diagonal intent from moving faster along
/// either axis than a single-axis intent would.
pub proof fn lemma_unit_move_bounded(mx: int, my: int)
    ensures
        abs_i(unit_move_spec(mx, my).0) <= 65536,
        abs_i(unit_move_spec(mx, my).1) <= 65536,
{
    if mx == 0 && my == 0 {
    } else {
        let msq = mx * mx + my * my;
        assert(mx * mx >= 0 && my * my >= 0) by (nonlinear_arith);
        assert(mx != 0 ==> mx * mx >= 1) by (nonlinear_arith);
        assert(my != 0 ==> my * my >= 1) by (nonlinear_arith);
        lemma_isqrt_bounds(msq);
        let l = isqrt_spec(msq);
        assert(l >= 1) by (nonlinear_arith)
            requires
                l * l <= msq < (l + 1) * (l + 1),
                msq >= 1,
        ;
        assert(mx <= l && -mx <= l && my <= l && -my <= l) by (nonlinear_arith)
            requires
                mx * mx + my * my == msq,
                l * l <= msq < (l + 1) * (l + 1),
                l >= 1,
        ;
        lemma_fx_div_unit(mx, l);
        lemma_fx_div_unit(my, l);
    }
}

/// The displacement one update applies before collision testing: the
/// unit movement direction scaled by linear speed and the frame delta.
pub open spec fn step_spec(p: Player, input: MoveIntents, dt: int) -> (int, int) {
    let b = move_basis_spec(p, input);
    let u = unit_move_spec(b.0, b.1);
    (fx_mul_spec(fx_mul_spec(u.0, p.speed_move as int), dt), fx_mul_spec(
        fx_mul_spec(u.1, p.speed_move as int),
        dt,
    ))
}

/// A footprint free of walls lies strictly inside the map: the border
/// is infinite wall, so any free cell is in bounds, which bounds the
/// center coordinate by the map's extent.
pub proof fn lemma_free_footprint_in_map(w: World, x: int, y: int, r: int)
    requires
        w.wf(),
        0 <= r,
        !collides_spec(w, x, y, r),
    ensures
        0 <= x - r,
        x + r < w.map.width * 65536,
        0 <= y - r,
        y + r < w.map.height * 65536,
{
    let d: int = 65536;
    let clo_x = fx_floor_spec(x - r);
    let chi_x = fx_floor_spec(x + r);
    let clo_y = fx_floor_spec(y - r);
    let chi_y = fx_floor_spec(y + r);
    vstd::arithmetic::div_mod::lemma_div_is_ordered(x - r, x + r, d);
    vstd::arithmetic::div_mod::lemma_div_is_ordered(y - r, y + r, d);
    assert(!w.is_wall_at(clo_x, clo_y));
    assert(!w.is_wall_at(chi_x, chi_y));
    assert(w.map.in_bounds(clo_x, clo_y));
    assert(w.map.in_bounds(chi_x, chi_y));
    vstd::arithmetic::div_mod::lemma_fundamental_div_mod(x - r, d);
    vstd::arithmetic::div_mod::lemma_fundamental_div_mod(x + r, d);
    vstd::arithmetic::div_mod::lemma_fundamental_div_mod(y - r, d);
    vstd::arithmetic::div_mod::lemma_fundamental_div_mod(y + r, d);
    assert(d * chi_x <= d * (w.map.width - 1)) by (nonlinear_arith)
        requires
            chi_x <= w.map.width - 1,
            d == 65536,
    ;
    assert(d * chi_y <= d * (w.map.height - 1)) by (nonlinear_arith)
        requires
            chi_y <= w.map.height - 1,
            d == 65536,
    ;
    assert(d * (w.map.width - 1) == w.map.width * 65536 - 65536) by (nonlinear_arith)
        requires
            d == 65536,
    ;
    assert(d * (w.map.height - 1) == w.map.height * 65536 - 65536) by (nonlinear_arith)
        requires
            d == 65536,
    ;
    assert(d * clo_x >= 0) by (nonlinear_arith)
        requires
            clo_x >= 0,
            d == 65536,
    ;
    assert(d * clo_y >= 0) by (nonlinear_arith)
        requires
            clo_y >= 0,
            d == 65536,
    ;
}

impl Player {
    /// Pose validity: every component small enough that movement,
    /// rotation and ray traversal arithmetic stays inside an `i64`.
    pub open spec fn inv(&self) -> bool {
        &&& -POS_LIMIT <= self.pos.x <= POS_LIMIT
        &&& -POS_LIMIT <= self.pos.y <= POS_LIMIT
        &&& -DIR_LIMIT <= self.dir.x <= DIR_LIMIT
        &&& -DIR_LIMIT <= self.dir.y <= DIR_LIMIT
        &&& -DIR_LIMIT <= self.plane.x <= DIR_LIMIT
        &&& -DIR_LIMIT <= self.plane.y <= DIR_LIMIT
        &&& 0 <= self.speed_move <= DIR_LIMIT
        &&& 0 <= self.speed_rot <= DIR_LIMIT
        &&& 0 <= self.radius <= DIR_LIMIT
    }

    /// A fresh player at the world's spawn pose. The facing vector is
    /// handed in as a fixed-point unit vector (the angle-to-vector
    /// conversion is the caller's); the camera plane is its
    /// perpendicular scaled by `PLANE_SCALE`.
    pub fn from_world_spawn(world: &World, dir: Vec2Fx) -> (p: Player)
        requires
            -65536 <= dir.x <= 65536,
            -65536 <= dir.y <= 65536,
            -POS_LIMIT <= world.player_spawn.x <= POS_LIMIT,
            -POS_LIMIT <= world.player_spawn.y <= POS_LIMIT,
        ensures
            p.pos == world.player_spawn,
            p.dir == dir,
            p.plane.x == fx_mul_spec(-(dir.y as int), PLANE_SCALE as int),
            p.plane.y == fx_mul_spec(dir.x as int, PLANE_SCALE as int),
            p.speed_move == SPEED_MOVE,
            p.speed_rot == SPEED_ROT,
            p.radius == RADIUS,
            p.inv(),
    {
        proof {
            lemma_fx_mul_abs(-(dir.y as int), PLANE_SCALE as int, 65536, 65536);
            lemma_fx_mul_abs(dir.x as int, PLANE_SCALE as int, 65536, 65536);
        }
        let plane = Vec2Fx { x: fx_mul(-dir.y, PLANE_SCALE), y: fx_mul(dir.x, PLANE_SCALE) };
        Player {
            pos: world.player_spawn,
            dir,
            plane,
            speed_move: SPEED_MOVE,
            speed_rot: SPEED_ROT,
            radius: RADIUS,
        }
    }

    /// One rigid rotation step: both the facing vector and the camera
    /// plane go through the same 2D rotation matrix, given by the
    /// caller as the fixed-point cosine and sine of the angle.
    pub fn rotate(&mut self, cos_fx: i64, sin_fx: i64)
        requires
            old(self).inv(),
            -65536 <= cos_fx <= 65536,
            -65536 <= sin_fx <= 65536,
            -0x80_0000 <= old(self).dir.x <= 0x80_0000,
            -0x80_0000 <= old(self).dir.y <= 0x80_0000,
            -0x80_0000 <= old(self).plane.x <= 0x80_0000,
            -0x80_0000 <= old(self).plane.y <= 0x80_0000,
        ensures
            final(self).dir.x == fx_mul_spec(old(self).dir.x as int, cos_fx as int) - fx_mul_spec(
                old(self).dir.y as int,
                sin_fx as int,
            ),
            final(self).dir.y == fx_mul_spec(old(self).dir.x as int, sin_fx as int) + fx_mul_spec(
                old(self).dir.y as int,
                cos_fx as int,
            ),
            final(self).plane.x == fx_mul_spec(old(self).plane.x as int, cos_fx as int)
                - fx_mul_spec(old(self).plane.y as int, sin_fx as int),
            final(self).plane.y == fx_mul_spec(old(self).plane.x as int, sin_fx as int)
                + fx_mul_spec(old(self).plane.y as int, cos_fx as int),
            final(self).pos == old(self).pos,
            final(self).speed_move == old(self).speed_move,
            final(self).speed_rot == old(self).speed_rot,
            final(self).radius == old(self).radius,
            final(self).inv(),
    {
        proof {
            lemma_fx_mul_abs(self.dir.x as int, cos_fx as int, 0x80_0000, 65536);
            lemma_fx_mul_abs(self.dir.y as int, sin_fx as int, 0x80_0000, 65536);
            lemma_fx_mul_abs(self.dir.x as int, sin_fx as int, 0x80_0000, 65536);
            lemma_fx_mul_abs(self.dir.y as int, cos_fx as int, 0x80_0000, 65536);
            lemma_fx_mul_abs(self.plane.x as int, cos_fx as int, 0x80_0000, 65536);
            lemma_fx_mul_abs(self.plane.y as int, sin_fx as int, 0x80_0000, 65536);
            lemma_fx_mul_abs(self.plane.x as int, sin_fx as int, 0x80_0000, 65536);
            lemma_fx_mul_abs(self.plane.y as int, cos_fx as int, 0x80_0000, 65536);
        }
        let dx = fx_mul(self.dir.x, cos_fx) - fx_mul(self.dir.y, sin_fx);
        let dy = fx_mul(self.dir.x, sin_fx) + fx_mul(self.dir.y, cos_fx);
        let px = fx_mul(self.plane.x, cos_fx) - fx_mul(self.plane.y, sin_fx);
        let py = fx_mul(self.plane.x, sin_fx) + fx_mul(self.plane.y, cos_fx);
        self.dir = Vec2Fx { x: dx, y: dy };
        self.plane = Vec2Fx { x: px, y: py };
    }

    /// The displacement this pose would apply for the given intents and
    /// frame delta, before any collision test: the normalized intent
    /// basis scaled by linear speed and the delta.
    pub fn movement_step(&self, input: &MoveIntents, dt: i64) -> (s: (i64, i64))
        requires
            self.inv(),
            0 <= dt <= 6554,
        ensures
            (s.0 as int, s.1 as int) == step_spec(*self, *input, dt as int),
            -0x200_0000 <= s.0 <= 0x200_0000,
            -0x200_0000 <= s.1 <= 0x200_0000,
    {
        let mut mx: i64 = 0;
        let mut my: i64 = 0;
        if input.forward {
            mx = mx + self.dir.x;
            my = my + self.dir.y;
        }
        if input.back {
            mx = mx - self.dir.x;
            my = my - self.dir.y;
        }
        if input.strafe_left {
            mx = mx + self.dir.y;
            my = my - self.dir.x;
        }
        if input.strafe_right {
            mx = mx - self.dir.y;
            my = my + self.dir.x;
        }
        proof {
            assert(move_basis_spec(*self, *input) == (mx as int, my as int));
        }
        let mut sx: i64 = 0;
        let mut sy: i64 = 0;
        if mx != 0 || my != 0 {
            proof {
                assert(mx * mx + my * my <= 0x40_0000_0000_0000) by (nonlinear_arith)
                    requires
                        -0x400_0000 <= mx <= 0x400_0000,
                        -0x400_0000 <= my <= 0x400_0000,
                ;
                assert(mx * mx >= 0 && my * my >= 0) by (nonlinear_arith);
                assert(mx != 0 ==> mx * mx >= 1) by (nonlinear_arith);
                assert(my != 0 ==> my * my >= 1) by (nonlinear_arith);
            }
            let msq: i64 = mx * mx + my * my;
            let l: u64 = isqrt(msq as u64);
            proof {
                assert(l >= 1) by (nonlinear_arith)
                    requires
                        l * l <= msq < (l + 1) * (l + 1),
                        msq >= 1,
                ;
                assert(l <= 0x800_0000) by (nonlinear_arith)
                    requires
                        l * l <= msq <= 0x40_0000_0000_0000,
                ;
                assert(mx <= l && -mx <= l && my <= l && -my <= l) by (nonlinear_arith)
                    requires
                        mx * mx + my * my == msq,
                        l * l <= msq < (l + 1) * (l + 1),
                        l >= 1,
                ;
            }
            let li: i64 = l as i64;
            let ux = fx_div(mx, li);
            let uy = fx_div(my, li);
            proof {
                lemma_fx_div_unit(mx as int, li as int);
                lemma_fx_div_unit(my as int, li as int);
            }
            let vx = fx_mul(ux, self.speed_move);
            let vy = fx_mul(uy, self.speed_move);
            proof {
                lemma_fx_mul_abs(ux as int, self.speed_move as int, 65536, DIR_LIMIT as int);
                lemma_fx_mul_abs(uy as int, self.speed_move as int, 65536, DIR_LIMIT as int);
            }
            sx = fx_mul(vx, dt);
            sy = fx_mul(vy, dt);
            proof {
                lemma_fx_mul_abs(vx as int, dt as int, DIR_LIMIT as int, 6554);
                lemma_fx_mul_abs(vy as int, dt as int, DIR_LIMIT as int, 6554);
                assert(l == isqrt_spec(mx * mx + my * my));
                assert(unit_move_spec(mx as int, my as int) == (ux as int, uy as int));
                assert(sx == step_spec(*self, *input, dt as int).0);
                assert(sy == step_spec(*self, *input, dt as int).1);
            }
        } else {
            proof {
                vstd::arithmetic::div_mod::lemma_div_basics(65536);
                assert(unit_move_spec(mx as int, my as int) == (0int, 0int));
                assert(abs_i(0) == 0);
                assert(fx_mul_spec(0, self.speed_move as int) == 0);
                assert(fx_mul_spec(0, dt as int) == 0);
                assert(sx == step_spec(*self, *input, dt as int).0);
                assert(sy == step_spec(*self, *input, dt as int).1);
            }
        }
        (sx, sy)
    }

    /// One movement update: build the intent basis, normalize it, scale
    /// by linear speed and the frame delta, then apply each axis
    /// separately, committing a move only when the moved footprint is
    /// free of walls. A footprint that starts free therefore stays
    /// free, and a committed move always lands inside the map.
    pub fn update(&mut self, world: &World, input: &MoveIntents, dt: i64)
        requires
            old(self).inv(),
            world.wf(),
            0 <= dt <= 6554,
        ensures
            final(self).dir == old(self).dir,
            final(self).plane == old(self).plane,
            final(self).speed_move == old(self).speed_move,
            final(self).speed_rot == old(self).speed_rot,
            final(self).radius == old(self).radius,
            final(self).inv(),
            ({
                let s = step_spec(*old(self), *input, dt as int);
                let r = old(self).radius as int;
                let x1: int = if collides_spec(
                    *world,
                    old(self).pos.x + s.0,
                    old(self).pos.y as int,
                    r,
                ) {
                    old(self).pos.x as int
                } else {
                    old(self).pos.x + s.0
                };
                let y1: int = if collides_spec(*world, x1, old(self).pos.y + s.1, r) {
                    old(self).pos.y as int
                } else {
                    old(self).pos.y + s.1
                };
                final(self).pos.x == x1 && final(self).pos.y == y1
            }),
            collides_spec(
                *world,
                final(self).pos.x as int,
                final(self).pos.y as int,
                final(self).radius as int,
            ) ==> final(self).pos == old(self).pos,
    {
        let (sx, sy) = self.movement_step(input, dt);
        let cand_x = Vec2Fx { x: self.pos.x + sx, y: self.pos.y };
        if !collides(world, cand_x, self.radius) {
            proof {
                lemma_free_footprint_in_map(
                    *world,
                    cand_x.x as int,
                    cand_x.y as int,
                    self.radius as int,
                );
            }
            self.pos = cand_x;
        }
        let cand_y = Vec2Fx { x: self.pos.x, y: self.pos.y + sy };
        if !collides(world, cand_y, self.radius) {
            proof {
                lemma_free_footprint_in_map(
                    *world,
                    cand_y.x as int,
                    cand_y.y as int,
                    self.radius as int,
                );
            }
            self.pos = cand_y;
        }
    }
}

} // verus!

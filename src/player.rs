//! The moving body: gravity, jump, and per-axis collision resolution.
use vstd::prelude::*;
use crate::collider::{overlaps, BoxCollider, Vec2};
use crate::fits_i64;

verus! {

/// Horizontal speed, in sub-units per microsecond (0.2 world units per
/// millisecond).
pub const SPEED: i64 = 200;

/// Gravity, in sub-units of velocity gained per microsecond (0.01 world
/// units per millisecond).
pub const GRAVITY: i64 = 10;

/// Vertical velocity set by a jump (negative is upward motion).
pub const JUMP_VELOCITY: i64 = -8_000_000;

/// Width and height of the body's collision box.
pub const BODY_SIZE: i64 = 50_000_000;

/// Movement keys held during one tick.
#[derive(Clone, Copy, Debug, PartialEq, Eq, Structural)]
pub struct Keys {
    pub left: bool,
    pub right: bool,
    pub jump: bool,
}

/// A key that the body reacts to.
#[derive(Clone, Copy, Debug, PartialEq, Eq, Structural)]
pub enum MoveKey {
    Left,
    Right,
    Jump,
}

impl Keys {
    /// No key held.
    pub fn none() -> (r: Keys)
        ensures
            !r.left && !r.right && !r.jump,
    {
        Keys { left: false, right: false, jump: false }
    }

    /// Whether `key` is held.
    pub open spec fn held(self, key: MoveKey) -> bool {
        match key {
            MoveKey::Left => self.left,
            MoveKey::Right => self.right,
            MoveKey::Jump => self.jump,
        }
    }

    /// Records that `key` was pressed or released; the other keys keep
    /// their state.
    pub fn input_event(&mut self, key: MoveKey, pressed: bool)
        ensures
            final(self).held(key) == pressed,
            forall|k: MoveKey| k != key ==> #[trigger] final(self).held(k) == old(self).held(k),
    {
        match key {
            MoveKey::Left => self.left = pressed,
            MoveKey::Right => self.right = pressed,
            MoveKey::Jump => self.jump = pressed,
        }
    }
}

/// A body that falls, jumps and walks against static terrain.
pub struct Player {
    /// World-space anchor.
    pub pos: Vec2,
    /// Velocity; `vel.y` is subtracted from `pos.y` each tick.
    pub vel: Vec2,
    /// Probe box, centered on `pos` between ticks.
    pub collider: BoxCollider,
    /// Whether the last vertical resolution found support.
    pub touching_ground: bool,
}

/// Some box of `terrain` overlaps `probe`.
pub open spec fn hits(probe: BoxCollider, terrain: Seq<BoxCollider>) -> bool {
    exists|i: int| 0 <= i < terrain.len() && overlaps(probe, #[trigger] terrain[i])
}

impl Player {
    /// The probe box has positive extents.
    pub open spec fn wf(self) -> bool {
        self.collider.wf()
    }

    /// Vertical velocity after the input and integration phases.
    pub open spec fn integrated_vy(self, keys: Keys, delta: u64) -> int {
        (if keys.jump && self.touching_ground {
            JUMP_VELOCITY as int
        } else {
            self.vel.y as int
        }) + GRAVITY * delta
    }

    /// Horizontal displacement asked for by the held keys.
    pub open spec fn wanted_dx(self, keys: Keys, delta: u64) -> int {
        (if keys.right { SPEED * delta } else { 0int }) - (if keys.left { SPEED * delta } else { 0int })
    }

    /// The probe at the candidate vertical position.
    pub open spec fn probe_y(self, keys: Keys, delta: u64) -> BoxCollider {
        BoxCollider {
            pos: Vec2 { x: self.pos.x, y: (self.pos.y - self.integrated_vy(keys, delta)) as i64 },
            size: self.collider.size,
        }
    }

    /// The probe at the candidate horizontal position.
    pub open spec fn probe_x(self, keys: Keys, delta: u64) -> BoxCollider {
        BoxCollider {
            pos: Vec2 { x: (self.pos.x + self.wanted_dx(keys, delta)) as i64, y: self.pos.y },
            size: self.collider.size,
        }
    }

    /// Every value of one tick fits in an `i64`.
    pub open spec fn tick_fits(self, keys: Keys, delta: u64) -> bool {
        &&& fits_i64(self.integrated_vy(keys, delta))
        &&& fits_i64(-self.integrated_vy(keys, delta))
        &&& fits_i64(self.pos.y - self.integrated_vy(keys, delta))
        &&& fits_i64(SPEED * delta)
        &&& fits_i64(self.pos.x + self.wanted_dx(keys, delta))
    }

    /// The state that one tick leads from `self` to `after`.
    ///
    /// Vertical motion is rejected, the vertical velocity zeroed and the body
    /// marked grounded when the vertical probe meets any terrain box;
    /// horizontal motion is rejected when the horizontal probe meets any.
    /// Every terrain box is tested; a hit only ever sets the flags, so the
    /// order of `terrain` does not change the outcome.
    pub open spec fn ticked(self, after: Player, keys: Keys, delta: u64, terrain: Seq<BoxCollider>) -> bool {
        let hit_y = hits(self.probe_y(keys, delta), terrain);
        let hit_x = hits(self.probe_x(keys, delta), terrain);
        &&& after.touching_ground == hit_y
        &&& after.vel.x == self.vel.x
        &&& after.vel.y == (if hit_y { 0 } else { self.integrated_vy(keys, delta) })
        &&& after.pos.y == (if hit_y { self.pos.y as int } else { self.pos.y - self.integrated_vy(keys, delta) })
        &&& after.pos.x == (if hit_x { self.pos.x as int } else { self.pos.x + self.wanted_dx(keys, delta) })
        &&& after.collider.pos == after.pos
        &&& after.collider.size == self.collider.size
    }

    /// A body at rest at `pos`, not grounded, with a square box of
    /// [`BODY_SIZE`].
    pub fn new(pos: Vec2) -> (r: Player)
        ensures
            r.wf(),
            r.pos == pos,
            r.vel == (Vec2 { x: 0, y: 0 }),
            r.collider == (BoxCollider { pos, size: Vec2 { x: BODY_SIZE, y: BODY_SIZE } }),
            !r.touching_ground,
    {
        let collider = BoxCollider::new(pos, Vec2::new(BODY_SIZE, BODY_SIZE));
        Player { pos, vel: Vec2::new(0, 0), collider, touching_ground: false }
    }

    /// Whether a tick with these keys and `delta` stays within `i64`.
    pub fn can_tick(&self, keys: &Keys, delta: u64) -> (r: bool)
        ensures
            r == self.tick_fits(*keys, delta),
    {
        let d = delta as i128;
        let vy0: i128 = if keys.jump && self.touching_ground {
            JUMP_VELOCITY as i128
        } else {
            self.vel.y as i128
        };
        assert(0 <= 10 * d <= 10 * 0xffff_ffff_ffff_ffffi128) by (nonlinear_arith)
            requires
                0 <= d <= 0xffff_ffff_ffff_ffffi128,
        ;
        assert(0 <= 200 * d <= 200 * 0xffff_ffff_ffff_ffffi128) by (nonlinear_arith)
            requires
                0 <= d <= 0xffff_ffff_ffff_ffffi128,
        ;
        let vy = vy0 + (GRAVITY as i128) * d;
        let step = (SPEED as i128) * d;
        let dx = (if keys.right { step } else { 0 }) - (if keys.left { step } else { 0 });
        let lo = i64::MIN as i128;
        let hi = i64::MAX as i128;
        let y = self.pos.y as i128 - vy;
        let x = self.pos.x as i128 + dx;
        lo < vy && vy <= hi && lo <= y && y <= hi && step <= hi && lo <= x && x <= hi
    }

    /// Advances the body by one tick of `delta` microseconds against the
    /// static `terrain`.
    pub fn handle_input(&mut self, keys: &Keys, delta: u64, terrain: &Vec<BoxCollider>)
        requires
            old(self).wf(),
            old(self).tick_fits(*keys, delta),
        ensures
            final(self).wf(),
            old(self).ticked(*final(self), *keys, delta, terrain@),
    {
        let step: i64 = SPEED * (delta as i64);
        let mut move_x: i64 = 0;
        if keys.left {
            move_x = move_x - step;
        }
        if keys.right {
            move_x = move_x + step;
        }
        if keys.jump && self.touching_ground {
            self.vel.y = JUMP_VELOCITY;
        }
        self.vel.y = self.vel.y + GRAVITY * (delta as i64);
        let move_y: i64 = -self.vel.y;
        let start = self.pos;

        let mut collided_y = false;
        let mut collided_x = false;
        let ghost terrain_s = terrain@;
        let ghost probe_y = old(self).probe_y(*keys, delta);
        let ghost probe_x = old(self).probe_x(*keys, delta);
        self.touching_ground = false;
        let mut i: usize = 0;
        while i < terrain.len()
            invariant
                i <= terrain.len(),
                terrain@ == terrain_s,
                self.collider.size == old(self).collider.size,
                self.pos == start,
                self.vel.x == old(self).vel.x,
                collided_y == self.touching_ground,
                collided_y == exists|j: int| 0 <= j < i && overlaps(probe_y, #[trigger] terrain_s[j]),
                collided_x == exists|j: int| 0 <= j < i && overlaps(probe_x, #[trigger] terrain_s[j]),
                collided_y ==> self.vel.y == 0,
                !collided_y ==> self.vel.y == old(self).integrated_vy(*keys, delta),
                probe_y == (BoxCollider { pos: Vec2 { x: start.x, y: (start.y + move_y) as i64 }, size: old(self).collider.size }),
                probe_x == (BoxCollider { pos: Vec2 { x: (start.x + move_x) as i64, y: start.y }, size: old(self).collider.size }),
                fits_i64(start.y + move_y),
                fits_i64(start.x + move_x),
            decreases terrain.len() - i,
        {
            let other = &terrain[i];
            self.collider.pos = Vec2::new(start.x, start.y + move_y);
            if self.collider.CheckCollision(other) {
                self.vel.y = 0;
                self.touching_ground = true;
                collided_y = true;
            }
            self.collider.pos = Vec2::new(start.x + move_x, start.y);
            if self.collider.CheckCollision(other) {
                collided_x = true;
            }
            i = i + 1;
        }
        if !collided_y {
            self.pos.y = start.y + move_y;
        }
        if !collided_x {
            self.pos.x = start.x + move_x;
        }
        self.collider.pos = self.pos;
    }
}

/// With no keys held, not grounded and no terrain, one tick raises the
/// vertical velocity by exactly gravity times `delta` (strictly, for a
/// positive `delta`) and moves the body vertically by the new velocity.
pub proof fn lemma_free_fall(before: Player, after: Player, delta: u64, terrain: Seq<BoxCollider>)
    requires
        !before.touching_ground,
        terrain.len() == 0,
        before.ticked(after, Keys { left: false, right: false, jump: false }, delta, terrain),
    ensures
        after.vel.y == before.vel.y + GRAVITY * delta,
        delta > 0 ==> after.vel.y > before.vel.y,
        after.pos.y == before.pos.y - after.vel.y,
        after.pos.x == before.pos.x,
        !after.touching_ground,
{
}

/// A tick that moves the body down onto a single terrain box whose top edge
/// touches the body's bottom edge, and which lies under its footprint,
/// stops the body: vertical velocity zero, grounded, height unchanged.
///
/// The downward step may not exceed the two boxes' combined height; a longer
/// step carries the probe past the box.
pub proof fn lemma_landing(before: Player, after: Player, keys: Keys, delta: u64, ground: BoxCollider)
    requires
        before.wf(),
        ground.wf(),
        before.tick_fits(keys, delta),
        crate::collider::axis_overlap(
            before.pos.x as int,
            before.collider.size.x as int,
            ground.pos.x as int,
            ground.size.x as int,
        ),
        2 * ground.pos.y + ground.size.y == 2 * before.pos.y - before.collider.size.y,
        0 <= before.integrated_vy(keys, delta) <= before.collider.size.y + ground.size.y,
        before.ticked(after, keys, delta, seq![ground]),
    ensures
        after.vel.y == 0,
        after.touching_ground,
        after.pos.y == before.pos.y,
{
    let probe = before.probe_y(keys, delta);
    assert(overlaps(probe, seq![ground][0]));
}

/// Holding jump while not grounded adds no jump impulse: the vertical
/// velocity is the old one plus gravity, or zero on a vertical collision.
pub proof fn lemma_no_air_jump(before: Player, after: Player, keys: Keys, delta: u64, terrain: Seq<BoxCollider>)
    requires
        !before.touching_ground,
        keys.jump,
        before.ticked(after, keys, delta, terrain),
    ensures
        after.vel.y == (if after.touching_ground { 0 } else { before.vel.y + GRAVITY * delta }),
{
}

} // verus!

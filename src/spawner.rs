//! Obstacle spawning: the interval, placement, speed and kill radius of each
//! kind, scaled by score and session time, from random rolls.
use vstd::prelude::*;
use crate::physics::{Vec2, Movement, Collider, PlayerCollider, Gravity, trunc_div};
use crate::components::{Components, Obstacle, ObstacleKind, Player, AttackState, placed, place};
use crate::world::PLAYER_JUMP_STRENGTH;

verus! {

/// Largest magnitude of a play-area coordinate.
pub const AREA_LIMIT: i64 = 1_000_000_000_000;

pub const BIRD_SPRITE_SIZE: i64 = 128_000;
pub const TREE_SPRITE_SIZE: i64 = 256_000;
pub const CLOUD_SPRITE_SIZE: i64 = 256_000;
pub const PLAYER_SIZE: i64 = 169_000;

/// The fixed rectangle of the play area.
#[derive(Clone, Copy, Debug, PartialEq, Eq, Structural)]
pub struct PlayArea {
    pub min: Vec2,
    pub max: Vec2,
}

impl PlayArea {
    pub open spec fn wf(&self) -> bool {
        &&& -AREA_LIMIT <= self.min.x < self.max.x <= AREA_LIMIT
        &&& -AREA_LIMIT <= self.min.y < self.max.y <= AREA_LIMIT
    }

    /// The default view: 1720 by 1080 units centred on the origin.
    pub fn view_box() -> (r: PlayArea)
        ensures
            r == (PlayArea { min: Vec2 { x: -860_000i64, y: -540_000i64 }, max: Vec2 { x: 860_000, y: 540_000 } }),
            r.wf(),
    {
        PlayArea { min: Vec2 { x: -860_000, y: -540_000 }, max: Vec2 { x: 860_000, y: 540_000 } }
    }
}

/// Nanoseconds until the next bird: one second, less a millisecond per point
/// up to a thousand points, plus up to half a second of jitter.
pub open spec fn bird_interval_spec(score: int, roll: u32) -> int {
    let capped = if score < 0 { 0 } else if score > 1000 { 1000 } else { score };
    1_000_000_000 - capped * 1_000_000 + (roll % 500_000_000) as int
}

pub fn bird_interval(score: i32, roll: u32) -> (r: u64)
    ensures
        r == bird_interval_spec(score as int, roll),
{
    let capped: u64 = if score < 0 { 0 } else if score > 1000 { 1000 } else { score as u64 };
    1_000_000_000 - capped * 1_000_000 + (roll % 500_000_000) as u64
}

/// Height of a new bird: a point between a fifth and four fifths of the way
/// from the top of the play area to its bottom.
pub open spec fn bird_height_spec(area: PlayArea, roll: u32) -> int {
    let h = 200 + (roll % 600) as int;
    trunc_div(area.max.y * (1000 - h) + area.min.y * h, 1000)
}

pub fn bird_height(area: PlayArea, roll: u32) -> (r: i64)
    requires
        area.wf(),
    ensures
        r == bird_height_spec(area, roll),
        area.min.y <= r <= area.max.y,
{
    let h: i128 = 200 + (roll % 600) as i128;
    let top: i128 = area.max.y as i128;
    let bottom: i128 = area.min.y as i128;
    assert(bottom * 1000 <= top * (1000 - h) + bottom * h <= top * 1000) by (nonlinear_arith)
        requires 200 <= h < 800, bottom < top;
    assert(-AREA_LIMIT * 1000 <= top * (1000 - h) + bottom * h <= AREA_LIMIT * 1000) by (nonlinear_arith)
        requires 200 <= h < 800, -AREA_LIMIT <= bottom < top <= AREA_LIMIT;
    assert(-AREA_LIMIT * 1000 <= top * (1000 - h) <= AREA_LIMIT * 1000) by (nonlinear_arith)
        requires 200 <= h < 800, -AREA_LIMIT <= top <= AREA_LIMIT;
    assert(-AREA_LIMIT * 1000 <= bottom * h <= AREA_LIMIT * 1000) by (nonlinear_arith)
        requires 200 <= h < 800, -AREA_LIMIT <= bottom <= AREA_LIMIT;
    let sum: i128 = top * (1000 - h) + bottom * h;
    let q: i128 = if sum >= 0 { sum / 1000 } else { -((-sum) / 1000) };
    assert(bottom <= q <= top) by (nonlinear_arith)
        requires
            bottom * 1000 <= sum <= top * 1000,
            sum >= 0 ==> q == sum / 1000,
            sum < 0 ==> q == -((-sum) / 1000);
    q as i64
}

/// Horizontal speed of a new bird: 400 units per second leftward, give or
/// take up to 199 units of jitter, and two more per combo step up to a
/// hundred.
pub open spec fn bird_speed_spec(combo: int, roll: u32) -> int {
    let jitter = (roll % 399) as int - 199;
    let capped = if combo < 0 { 0 } else if combo > 100 { 100 } else { combo };
    -400_000 - jitter * 1000 - capped * 2000
}

pub fn bird_speed(combo: i32, roll: u32) -> (r: i64)
    ensures
        r == bird_speed_spec(combo as int, roll),
        -799_000 <= r <= -201_000,
{
    let jitter: i64 = (roll % 399) as i64 - 199;
    let capped: i64 = if combo < 0 { 0 } else if combo > 100 { 100 } else { combo as i64 };
    -400_000 - jitter * 1000 - capped * 2000
}

/// Kill radius of a new bird: from 0.55 of its sprite size at the start of a
/// session, growing by a quarter over the first five minutes.
pub open spec fn bird_kill_size_spec(elapsed_us: int) -> int {
    let growth = if elapsed_us / 1200 > 250_000 { 250_000 } else { elapsed_us / 1200 };
    BIRD_SPRITE_SIZE * (550_000 + growth) / 1_000_000
}

pub fn bird_kill_size(elapsed_us: u64) -> (r: i64)
    ensures
        r == bird_kill_size_spec(elapsed_us as int),
        0 <= r <= BIRD_SPRITE_SIZE,
{
    let g: u64 = elapsed_us / 1200;
    let growth: i64 = if g > 250_000 { 250_000 } else { g as i64 };
    assert(0 <= BIRD_SPRITE_SIZE * (550_000 + growth) / 1_000_000 <= BIRD_SPRITE_SIZE) by (nonlinear_arith)
        requires 0 <= growth <= 250_000, BIRD_SPRITE_SIZE == 128_000;
    BIRD_SPRITE_SIZE * (550_000 + growth) / 1_000_000
}

/// A live bird entering from the right edge.
pub open spec fn bird_spec(area: PlayArea, height: i64, speed: i64, kill: i64) -> Components {
    Components {
        obstacle: Some(Obstacle { defeated: false, kind: ObstacleKind::Bird }),
        transform: Some(placed(Vec2 { x: (area.max.x + BIRD_SPRITE_SIZE) as i64, y: height })),
        collider: Some(Collider { collision_size: Vec2 { x: 115_200, y: 115_200 }, kill_size: kill }),
        movement: Some(Movement { x: speed, y: 0 }),
        ..Components::none()
    }
}

/// A new bird for the given score, combo, session time and rolls.
pub fn make_bird(area: PlayArea, combo: i32, elapsed_us: u64, height_roll: u32, speed_roll: u32) -> (r: Components)
    requires
        area.wf(),
    ensures
        r == bird_spec(
            area,
            bird_height_spec(area, height_roll) as i64,
            bird_speed_spec(combo as int, speed_roll) as i64,
            bird_kill_size_spec(elapsed_us as int) as i64,
        ),
        r.wf(),
{
    let height = bird_height(area, height_roll);
    let speed = bird_speed(combo, speed_roll);
    let kill = bird_kill_size(elapsed_us);
    Components {
        obstacle: Some(Obstacle { defeated: false, kind: ObstacleKind::Bird }),
        transform: Some(place(Vec2 { x: area.max.x + BIRD_SPRITE_SIZE, y: height })),
        collider: Some(Collider { collision_size: Vec2 { x: 115_200, y: 115_200 }, kill_size: kill }),
        movement: Some(Movement { x: speed, y: 0 }),
        ..Components::empty()
    }
}

/// Nanoseconds until the next tree: one second plus the roll.
pub open spec fn tree_interval_spec(roll: u32) -> int {
    1_000_000_000 + roll
}

pub fn tree_interval(roll: u32) -> (r: u64)
    ensures
        r == tree_interval_spec(roll),
{
    1_000_000_000 + roll as u64
}

/// A tree standing on the ground line, entering from the right edge.
pub open spec fn tree_spec(area: PlayArea) -> Components {
    Components {
        obstacle: Some(Obstacle { defeated: false, kind: ObstacleKind::Tree }),
        transform: Some(placed(Vec2 { x: (area.max.x + TREE_SPRITE_SIZE) as i64, y: (area.min.y + TREE_SPRITE_SIZE / 2) as i64 })),
        collider: Some(Collider { collision_size: Vec2 { x: 230_400, y: 230_400 }, kill_size: 102_400 }),
        movement: Some(Movement { x: -200_000i64, y: 0 }),
        ..Components::none()
    }
}

pub fn make_tree(area: PlayArea) -> (r: Components)
    requires
        area.wf(),
    ensures
        r == tree_spec(area),
        r.wf(),
{
    Components {
        obstacle: Some(Obstacle { defeated: false, kind: ObstacleKind::Tree }),
        transform: Some(place(Vec2 { x: area.max.x + TREE_SPRITE_SIZE, y: area.min.y + TREE_SPRITE_SIZE / 2 })),
        collider: Some(Collider { collision_size: Vec2 { x: 230_400, y: 230_400 }, kill_size: 102_400 }),
        movement: Some(Movement { x: -200_000, y: 0 }),
        ..Components::empty()
    }
}

/// Nanoseconds until the next cloud: three seconds plus the roll.
pub open spec fn cloud_interval_spec(roll: u32) -> int {
    3_000_000_000 + roll
}

pub fn cloud_interval(roll: u32) -> (r: u64)
    ensures
        r == cloud_interval_spec(roll),
{
    3_000_000_000 + roll as u64
}

/// Height of a new cloud: between a half and four fifths of a sprite below
/// the top of the play area.
pub open spec fn cloud_height_spec(area: PlayArea, roll: u32) -> int {
    area.max.y - (CLOUD_SPRITE_SIZE / 1000) * (500 + (roll % 300) as int)
}

/// A cloud drifting in near the top, entering from the right edge.
pub open spec fn cloud_spec(area: PlayArea, roll: u32) -> Components {
    Components {
        obstacle: Some(Obstacle { defeated: false, kind: ObstacleKind::Cloud }),
        transform: Some(placed(Vec2 { x: (area.max.x + CLOUD_SPRITE_SIZE) as i64, y: cloud_height_spec(area, roll) as i64 })),
        collider: Some(Collider { collision_size: Vec2 { x: 153_600, y: 153_600 }, kill_size: 76_800 }),
        movement: Some(Movement { x: -100_000i64, y: 0 }),
        ..Components::none()
    }
}

pub fn make_cloud(area: PlayArea, roll: u32) -> (r: Components)
    requires
        area.wf(),
    ensures
        r == cloud_spec(area, roll),
        r.wf(),
{
    let y: i64 = area.max.y - (CLOUD_SPRITE_SIZE / 1000) * (500 + (roll % 300) as i64);
    Components {
        obstacle: Some(Obstacle { defeated: false, kind: ObstacleKind::Cloud }),
        transform: Some(place(Vec2 { x: area.max.x + CLOUD_SPRITE_SIZE, y })),
        collider: Some(Collider { collision_size: Vec2 { x: 153_600, y: 153_600 }, kill_size: 76_800 }),
        movement: Some(Movement { x: -100_000, y: 0 }),
        ..Components::empty()
    }
}

/// The player at the start of a session: near the left edge, halfway up,
/// rising at jump speed.
pub open spec fn player_spec(area: PlayArea) -> Components {
    Components {
        transform: Some(placed(Vec2 { x: (area.min.x + 256_000) as i64, y: trunc_div(area.min.y + area.max.y, 2) as i64 })),
        movement: Some(Movement { x: 0, y: PLAYER_JUMP_STRENGTH }),
        player_collider: Some(PlayerCollider { collision_size: Vec2 { x: 152_100, y: PLAYER_SIZE } }),
        gravity: Some(Gravity { x: 1000, y: 2000 }),
        player: Some(Player { attack_state: AttackState::NotAttacking }),
        ..Components::none()
    }
}

pub fn make_player(area: PlayArea) -> (r: Components)
    requires
        area.wf(),
    ensures
        r == player_spec(area),
        r.wf(),
{
    let s: i64 = area.min.y + area.max.y;
    let mid: i64 = if s >= 0 { s / 2 } else { -((-s) / 2) };
    Components {
        transform: Some(place(Vec2 { x: area.min.x + 256_000, y: mid })),
        movement: Some(Movement { x: 0, y: PLAYER_JUMP_STRENGTH }),
        player_collider: Some(PlayerCollider { collision_size: Vec2 { x: 152_100, y: PLAYER_SIZE } }),
        gravity: Some(Gravity::default()),
        player: Some(Player { attack_state: AttackState::NotAttacking }),
        ..Components::empty()
    }
}

/// Whether the player's sprite, centred at height `y`, reaches past the top
/// or the bottom of the play area.
pub open spec fn out_of_bounds_spec(area: PlayArea, y: int) -> bool {
    2 * y - PLAYER_SIZE < 2 * area.min.y || 2 * y + PLAYER_SIZE > 2 * area.max.y
}

pub fn out_of_bounds(area: PlayArea, y: i64) -> (r: bool)
    requires
        area.wf(),
    ensures
        r == out_of_bounds_spec(area, y as int),
{
    let y2: i128 = 2 * y as i128;
    y2 - (PLAYER_SIZE as i128) < 2 * area.min.y as i128 || y2 + (PLAYER_SIZE as i128) > 2 * area.max.y as i128
}

/// Whether an obstacle at `pos` has left the play area past its left or
/// bottom edge.
pub open spec fn escaped_spec(area: PlayArea, pos: Vec2) -> bool {
    pos.x < area.min.x - BIRD_SPRITE_SIZE || pos.y < area.min.y - BIRD_SPRITE_SIZE
}

pub fn escaped(area: PlayArea, pos: Vec2) -> (r: bool)
    requires
        area.wf(),
    ensures
        r == escaped_spec(area, pos),
{
    pos.x < area.min.x - BIRD_SPRITE_SIZE || pos.y < area.min.y - BIRD_SPRITE_SIZE
}

} // verus!

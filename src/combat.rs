//! Knockback of a struck obstacle: the impact direction, scaled per axis by a
//! random factor between one and two, normalised to a fixed magnitude.
use vstd::prelude::*;
use crate::physics::{
    Vec2, Movement, Projectile, Gravity, FaceMovementDirection, abs, trunc_div,
    clamp_coord, dist_sq, squared_distance, COORD_LIMIT,
};
use crate::components::{
    Components, Obstacle, ObstacleKind, AttackState, Dead, FadeOut, ParticleEmitter,
    ParticleColor, EmissionDirection, placed, place,
};
use crate::collision::{CollisionEvent, ProjectileCollisionEvent};
use crate::score::ScoreEvent;
use crate::timer::{Timer, TimerMode};
use crate::world::{Command, SlotOp, Entity, Slot, World, commands_wf};
use crate::spawner::{PlayArea, escaped, escaped_spec};
use vstd::arithmetic::div_mod::{lemma_div_is_ordered, lemma_div_by_multiple};

verus! {

/// Speed given to a struck obstacle's corpse, in thousandths of a unit per second.
pub const KNOCKBACK_SPEED: i64 = 1_000_000;

/// Whether `r` is the integer square root of `n`.
pub open spec fn is_root(n: int, r: int) -> bool {
    0 <= r && r * r <= n < (r + 1) * (r + 1)
}

/// The integer square root of `n`: the largest `r` with `r * r <= n`.
pub open spec fn isqrt(n: int) -> int {
    choose|r: int| is_root(n, r)
}

proof fn lemma_isqrt_unique(n: int, a: int, b: int)
    requires
        0 <= a,
        a * a <= n < (a + 1) * (a + 1),
        0 <= b,
        b * b <= n < (b + 1) * (b + 1),
    ensures
        a == b,
{
    if a < b {
        assert((a + 1) * (a + 1) <= b * b) by (nonlinear_arith)
            requires 0 <= a, a < b;
    } else if b < a {
        assert((b + 1) * (b + 1) <= a * a) by (nonlinear_arith)
            requires 0 <= b, b < a;
    }
}

/// The integer square root of `n`.
pub fn integer_sqrt(n: u128) -> (r: u64)
    ensures
        r as int * r as int <= n,
        n < (r as int + 1) * (r as int + 1),
        r == isqrt(n as int),
{
    let mut lo: u128 = 0;
    let mut hi: u128 = 0x1_0000_0000_0000_0000;
    assert(n < hi * hi) by (nonlinear_arith)
        requires n <= u128::MAX, hi == 0x1_0000_0000_0000_0000;
    while hi - lo > 1
        invariant
            lo < hi <= 0x1_0000_0000_0000_0000,
            lo * lo <= n,
            n < hi * hi,
        decreases hi - lo,
    {
        let mid: u128 = lo + (hi - lo) / 2;
        assert(mid * mid < 0x1_0000_0000_0000_0000 * 0x1_0000_0000_0000_0000) by (nonlinear_arith)
            requires mid < 0x1_0000_0000_0000_0000;
        if mid * mid <= n {
            lo = mid;
        } else {
            hi = mid;
        }
    }
    assert(hi == lo + 1);
    proof {
        let w = lo as int;
        assert(is_root(n as int, w));
        let c = isqrt(n as int);
        lemma_isqrt_unique(n as int, w, c);
    }
    lo as u64
}

/// One axis of the impact direction, scaled by `1 + roll / 1000` where
/// `roll` is first reduced below a thousand.
pub open spec fn scaled_axis(d: int, roll: u32) -> int {
    d * (1000 + (roll % 1000) as int)
}

/// `v` scaled to `KNOCKBACK_SPEED` over the length `len`, rounded toward zero.
pub open spec fn normalised_axis(v: int, len: int) -> int {
    trunc_div(v * KNOCKBACK_SPEED, len)
}

/// The knockback given to an obstacle at `obstacle` struck from `hit`, for
/// the two random rolls: the difference vector scaled per axis by a factor
/// in `[1, 2)`, then normalised to `KNOCKBACK_SPEED`. A zero difference gives
/// no knockback.
pub open spec fn knockback_spec(obstacle: Vec2, hit: Vec2, roll_x: u32, roll_y: u32) -> Movement {
    let sx = scaled_axis(obstacle.x - hit.x, roll_x);
    let sy = scaled_axis(obstacle.y - hit.y, roll_y);
    let len = isqrt(sx * sx + sy * sy);
    if len == 0 {
        Movement { x: 0, y: 0 }
    } else {
        Movement { x: normalised_axis(sx, len) as i64, y: normalised_axis(sy, len) as i64 }
    }
}

pub(crate) proof fn lemma_axis_within_len(v: int, w: int, len: int)
    requires
        len >= 1,
        v * v + w * w < (len + 1) * (len + 1),
    ensures
        abs(v) <= len,
{
    assert(w * w >= 0) by (nonlinear_arith);
    if abs(v) > len {
        assert(v * v >= (len + 1) * (len + 1)) by (nonlinear_arith)
            requires abs(v) >= len + 1, len >= 1;
    }
}

proof fn lemma_normalised_bound(v: int, len: int)
    requires
        len >= 1,
        abs(v) <= len,
    ensures
        abs(normalised_axis(v, len)) <= KNOCKBACK_SPEED,
{
    let a = abs(v) * KNOCKBACK_SPEED;
    assert(0 <= a <= len * KNOCKBACK_SPEED) by (nonlinear_arith)
        requires abs(v) <= len, 0 <= abs(v), a == abs(v) * KNOCKBACK_SPEED, KNOCKBACK_SPEED == 1_000_000;
    lemma_div_is_ordered(a, KNOCKBACK_SPEED * len, len);
    lemma_div_by_multiple(KNOCKBACK_SPEED as int, len);
    lemma_div_is_ordered(0, a, len);
    if v < 0 {
        assert(-(v * KNOCKBACK_SPEED) == a) by (nonlinear_arith)
            requires v < 0, a == abs(v) * KNOCKBACK_SPEED;
    } else {
        assert(v * KNOCKBACK_SPEED == a);
    }
}

fn normalise_axis(v: i128, len: u64) -> (r: i64)
    requires
        len >= 1,
        abs(v as int) <= len,
        len <= 0x1_0000_0000_0000_0000,
    ensures
        r == normalised_axis(v as int, len as int),
        abs(r as int) <= KNOCKBACK_SPEED,
{
    proof {
        lemma_normalised_bound(v as int, len as int);
    }
    let p: i128 = v * KNOCKBACK_SPEED as i128;
    let l: i128 = len as i128;
    let q: i128 = if p >= 0 {
        p / l
    } else {
        let m: i128 = -p;
        -(m / l)
    };
    q as i64
}

/// The knockback given to an obstacle at `obstacle` struck from `hit`.
pub fn knockback(obstacle: Vec2, hit: Vec2, roll_x: u32, roll_y: u32) -> (r: Movement)
    requires
        obstacle.wf(),
        hit.wf(),
    ensures
        r == knockback_spec(obstacle, hit, roll_x, roll_y),
        abs(r.x as int) <= KNOCKBACK_SPEED,
        abs(r.y as int) <= KNOCKBACK_SPEED,
        r.wf(),
{
    let fx: i128 = 1000 + (roll_x % 1000) as i128;
    let fy: i128 = 1000 + (roll_y % 1000) as i128;
    let dx: i128 = obstacle.x as i128 - hit.x as i128;
    let dy: i128 = obstacle.y as i128 - hit.y as i128;
    assert(-4_000_000_000_000_000_000 <= dx * fx <= 4_000_000_000_000_000_000) by (nonlinear_arith)
        requires -2_000_000_000_000_000 <= dx <= 2_000_000_000_000_000, 1000 <= fx < 2000;
    assert(-4_000_000_000_000_000_000 <= dy * fy <= 4_000_000_000_000_000_000) by (nonlinear_arith)
        requires -2_000_000_000_000_000 <= dy <= 2_000_000_000_000_000, 1000 <= fy < 2000;
    let sx: i128 = dx * fx;
    let sy: i128 = dy * fy;
    assert(0 <= sx * sx <= 16_000_000_000_000_000_000_000_000_000_000_000_000) by (nonlinear_arith)
        requires -4_000_000_000_000_000_000 <= sx <= 4_000_000_000_000_000_000;
    assert(0 <= sy * sy <= 16_000_000_000_000_000_000_000_000_000_000_000_000) by (nonlinear_arith)
        requires -4_000_000_000_000_000_000 <= sy <= 4_000_000_000_000_000_000;
    let n: u128 = (sx * sx) as u128 + (sy * sy) as u128;
    let len: u64 = integer_sqrt(n);
    if len == 0 {
        return Movement { x: 0, y: 0 };
    }
    proof {
        lemma_axis_within_len(sx as int, sy as int, len as int);
        lemma_axis_within_len(sy as int, sx as int, len as int);
    }
    Movement { x: normalise_axis(sx, len), y: normalise_axis(sy, len) }
}

/// Half the width of a cloud sprite, the distance between its two halves.
pub const CLOUD_HALF_WIDTH: i64 = 128_000;

/// Farthest a projectile may be from what it strikes, per axis-free distance.
pub const PROJECTILE_REACH: i64 = 100_000;

/// Fade-out countdown of a struck obstacle, in microseconds.
pub const STRUCK_FADE_US: i64 = 250_000;

/// Countdown of a hit burst's own removal, in microseconds.
pub const BURST_LIFETIME_US: i64 = 100_000;

/// Countdown of a cloud half's removal, in microseconds.
pub const CLOUD_HALF_LIFETIME_US: i64 = 1_000_000;

/// The midpoint of `a` and `b`, rounded toward zero.
pub open spec fn midpoint(a: Vec2, b: Vec2) -> Vec2 {
    Vec2 { x: trunc_div(a.x + b.x, 2) as i64, y: trunc_div(a.y + b.y, 2) as i64 }
}

pub open spec fn emitter_spec(rate: u8, interval_ns: u64, color: ParticleColor, direction: EmissionDirection) -> ParticleEmitter {
    ParticleEmitter {
        emit_rate: rate,
        interval: Timer { duration_ns: interval_ns, elapsed_ns: 0, mode: TimerMode::Repeating, just_finished: false },
        color,
        size: Vec2 { x: 8000, y: 8000 },
        direction,
        speed: 500_000,
    }
}

/// A short-lived burst of particles at `at`, thrown along `force`.
pub open spec fn hit_burst(color: ParticleColor, at: Vec2, force: Movement) -> Components {
    Components {
        transform: Some(placed(at)),
        emitter: Some(emitter_spec(3, 500, color, EmissionDirection::Global(Vec2 { x: force.x, y: force.y }))),
        dead: Some(Dead { timer_us: BURST_LIFETIME_US }),
        ..Components::none()
    }
}

/// A felled tree drifting down and to the left.
pub open spec fn tree_corpse(at: Vec2) -> Components {
    Components {
        obstacle: Some(Obstacle { defeated: true, kind: ObstacleKind::Tree }),
        transform: Some(placed(at)),
        movement: Some(Movement { x: -300_000i64, y: -200_000i64 }),
        ..Components::none()
    }
}

/// A dead bird thrown along `force`, falling, and able to strike other obstacles.
pub open spec fn bird_corpse(at: Vec2, force: Movement) -> Components {
    Components {
        obstacle: Some(Obstacle { defeated: true, kind: ObstacleKind::Bird }),
        transform: Some(placed(at)),
        movement: Some(force),
        projectile: Some(Projectile { size: Vec2 { x: 115_200, y: 89_600 } }),
        gravity: Some(Gravity { x: 1000, y: 2000 }),
        face: Some(FaceMovementDirection { neutral: Vec2 { x: 0, y: -1000i64 } }),
        emitter: Some(emitter_spec(1, 50_000, ParticleColor::Red, EmissionDirection::Local(Vec2 { x: 0, y: 1000 }))),
        ..Components::none()
    }
}

/// Velocity of cloud half `i` (0 left, 1 right): half the sideways force away
/// from the other half, a tenth of the vertical force.
pub open spec fn cloud_half_movement(force: Movement, i: int) -> Movement {
    let side = trunc_div(abs(force.x as int), 2);
    Movement { x: (if i == 0 { -side } else { side }) as i64, y: trunc_div(force.y as int, 10) as i64 }
}

/// Cloud half `i` (0 left, 1 right) of a cloud cut at `at`.
pub open spec fn cloud_half(at: Vec2, force: Movement, i: int) -> Components {
    let m = cloud_half_movement(force, i);
    Components {
        obstacle: Some(Obstacle { defeated: true, kind: ObstacleKind::Cloud }),
        transform: Some(placed(Vec2 { x: clamp_coord(at.x - CLOUD_HALF_WIDTH / 2 + CLOUD_HALF_WIDTH * i) as i64, y: at.y })),
        movement: Some(m),
        fade: Some(FadeOut { speed: 1000 }),
        emitter: Some(emitter_spec(1, 50_000, ParticleColor::White, EmissionDirection::Global(Vec2 { x: (-m.x) as i64, y: (-m.y) as i64 }))),
        dead: Some(Dead { timer_us: CLOUD_HALF_LIFETIME_US }),
        ..Components::none()
    }
}

/// The commands of striking obstacle `e` of `kind` at `pos` from `hit` with
/// knockback `force`: the obstacle loses its tag and collider, a corpse and a burst
/// take its place while it fades out. A projectile passes through a cloud.
pub open spec fn strike_commands(e: Entity, kind: ObstacleKind, pos: Vec2, hit: Vec2, by_player: bool, force: Movement) -> Seq<Command> {
    let at = midpoint(pos, hit);
    match kind {
        ObstacleKind::Tree => seq![
            Command::Update(SlotOp::Retire(e, STRUCK_FADE_US)),
            Command::Spawn(tree_corpse(pos)),
            Command::Spawn(hit_burst(ParticleColor::Green, at, force)),
        ],
        ObstacleKind::Bird => seq![
            Command::Update(SlotOp::Retire(e, STRUCK_FADE_US)),
            Command::Spawn(bird_corpse(pos, force)),
            Command::Spawn(hit_burst(ParticleColor::Red, at, force)),
        ],
        ObstacleKind::Cloud => if by_player {
            seq![
                Command::Update(SlotOp::Retire(e, STRUCK_FADE_US)),
                Command::Spawn(cloud_half(pos, force, 0)),
                Command::Spawn(cloud_half(pos, force, 1)),
                Command::Spawn(hit_burst(ParticleColor::White, at, force)),
            ]
        } else {
            Seq::empty()
        },
    }
}

/// The score event of striking an obstacle of `kind`: only birds score.
pub open spec fn strike_score(kind: ObstacleKind) -> Option<ScoreEvent> {
    if kind == ObstacleKind::Bird { Some(ScoreEvent::Add) } else { None }
}

fn emitter_of(rate: u8, interval_ns: u64, color: ParticleColor, direction: EmissionDirection) -> (r: ParticleEmitter)
    requires
        match direction {
            EmissionDirection::Local(v) => v.wf(),
            EmissionDirection::Global(v) => v.wf(),
        },
    ensures
        r == emitter_spec(rate, interval_ns, color, direction),
        r.wf(),
{
    ParticleEmitter::new(rate, interval_ns, TimerMode::Repeating).with_color(color).with_direction(direction)
}

/// The midpoint of `a` and `b`, rounded toward zero.
pub fn midpoint_of(a: Vec2, b: Vec2) -> (r: Vec2)
    requires
        a.wf(),
        b.wf(),
    ensures
        r == midpoint(a, b),
        r.wf(),
{
    let sx: i64 = a.x + b.x;
    let sy: i64 = a.y + b.y;
    let x: i64 = if sx >= 0 { sx / 2 } else { -((-sx) / 2) };
    let y: i64 = if sy >= 0 { sy / 2 } else { -((-sy) / 2) };
    Vec2 { x, y }
}

/// Strikes obstacle `e` of `kind` at `pos` from `hit`, with the two random
/// rolls that shape the knockback: the commands that retire it and put its
/// corpse and a burst in its place, and the score event it earns.
pub fn strike(
    e: Entity,
    kind: ObstacleKind,
    pos: Vec2,
    hit: Vec2,
    by_player: bool,
    roll_x: u32,
    roll_y: u32,
) -> (r: (Vec<Command>, Option<ScoreEvent>))
    requires
        pos.wf(),
        hit.wf(),
    ensures
        r.0@ == strike_commands(e, kind, pos, hit, by_player, knockback_spec(pos, hit, roll_x, roll_y)),
        r.1 == strike_score(kind),
        commands_wf(r.0@),
{
    let force = knockback(pos, hit, roll_x, roll_y);
    let at = midpoint_of(pos, hit);
    let mut cmds: Vec<Command> = Vec::new();
    let force_dir = EmissionDirection::Global(Vec2 { x: force.x, y: force.y });
    match kind {
        ObstacleKind::Tree => {
            cmds.push(Command::Update(SlotOp::Retire(e, STRUCK_FADE_US)));
            cmds.push(Command::Spawn(Components {
                obstacle: Some(Obstacle { defeated: true, kind: ObstacleKind::Tree }),
                transform: Some(place(pos)),
                movement: Some(Movement { x: -300_000, y: -200_000 }),
                ..Components::empty()
            }));
            cmds.push(Command::Spawn(Components {
                transform: Some(place(at)),
                emitter: Some(emitter_of(3, 500, ParticleColor::Green, force_dir)),
                dead: Some(Dead { timer_us: BURST_LIFETIME_US }),
                ..Components::empty()
            }));
            (cmds, None)
        },
        ObstacleKind::Bird => {
            cmds.push(Command::Update(SlotOp::Retire(e, STRUCK_FADE_US)));
            cmds.push(Command::Spawn(Components {
                obstacle: Some(Obstacle { defeated: true, kind: ObstacleKind::Bird }),
                transform: Some(place(pos)),
                movement: Some(force),
                projectile: Some(Projectile { size: Vec2 { x: 115_200, y: 89_600 } }),
                gravity: Some(Gravity::default()),
                face: Some(FaceMovementDirection { neutral: Vec2 { x: 0, y: -1000 } }),
                emitter: Some(emitter_of(1, 50_000, ParticleColor::Red, EmissionDirection::Local(Vec2 { x: 0, y: 1000 }))),
                ..Components::empty()
            }));
            cmds.push(Command::Spawn(Components {
                transform: Some(place(at)),
                emitter: Some(emitter_of(3, 500, ParticleColor::Red, force_dir)),
                dead: Some(Dead { timer_us: BURST_LIFETIME_US }),
                ..Components::empty()
            }));
            (cmds, Some(ScoreEvent::Add))
        },
        ObstacleKind::Cloud => {
            if by_player {
                cmds.push(Command::Update(SlotOp::Retire(e, STRUCK_FADE_US)));
                let ax: i64 = if force.x < 0 { -force.x } else { force.x };
                let side: i64 = ax / 2;
                let vy: i64 = if force.y >= 0 { force.y / 10 } else { -((-force.y) / 10) };
                let left = Movement { x: -side, y: vy };
                let right = Movement { x: side, y: vy };
                let lx: i64 = if pos.x < -COORD_LIMIT + CLOUD_HALF_WIDTH / 2 { -COORD_LIMIT } else { pos.x - CLOUD_HALF_WIDTH / 2 };
                let rx: i64 = if pos.x > COORD_LIMIT - CLOUD_HALF_WIDTH / 2 { COORD_LIMIT } else { pos.x + CLOUD_HALF_WIDTH / 2 };
                cmds.push(Command::Spawn(Components {
                    obstacle: Some(Obstacle { defeated: true, kind: ObstacleKind::Cloud }),
                    transform: Some(place(Vec2 { x: lx, y: pos.y })),
                    movement: Some(left),
                    fade: Some(FadeOut { speed: 1000 }),
                    emitter: Some(emitter_of(1, 50_000, ParticleColor::White, EmissionDirection::Global(Vec2 { x: side, y: -vy }))),
                    dead: Some(Dead { timer_us: CLOUD_HALF_LIFETIME_US }),
                    ..Components::empty()
                }));
                cmds.push(Command::Spawn(Components {
                    obstacle: Some(Obstacle { defeated: true, kind: ObstacleKind::Cloud }),
                    transform: Some(place(Vec2 { x: rx, y: pos.y })),
                    movement: Some(right),
                    fade: Some(FadeOut { speed: 1000 }),
                    emitter: Some(emitter_of(1, 50_000, ParticleColor::White, EmissionDirection::Global(Vec2 { x: -side, y: -vy }))),
                    dead: Some(Dead { timer_us: CLOUD_HALF_LIFETIME_US }),
                    ..Components::empty()
                }));
                cmds.push(Command::Spawn(Components {
                    transform: Some(place(at)),
                    emitter: Some(emitter_of(3, 500, ParticleColor::White, force_dir)),
                    dead: Some(Dead { timer_us: BURST_LIFETIME_US }),
                    ..Components::empty()
                }));
            }
            proof {
                if by_player {
                    assert(cmds@ == strike_commands(e, kind, pos, hit, by_player, force));
                } else {
                    assert(cmds@ == Seq::<Command>::empty());
                }
            }
            (cmds, None)
        },
    }
}

/// What the combat resolver decided for a batch of events.
pub struct Outcome {
    pub commands: Vec<Command>,
    pub score_events: Vec<ScoreEvent>,
    pub game_over: bool,
}

pub open spec fn score_seq(e: Option<ScoreEvent>) -> Seq<ScoreEvent> {
    match e {
        Some(v) => seq![v],
        None => Seq::empty(),
    }
}

/// The commands for the first `n` player collisions: an attacking player
/// strikes the obstacle; an unarmed one does nothing to it.
pub open spec fn player_commands(evs: Seq<CollisionEvent>, rolls: Seq<u32>, n: nat) -> Seq<Command>
    decreases n,
{
    if n == 0 || n > evs.len() {
        Seq::empty()
    } else {
        let e = evs[n - 1];
        player_commands(evs, rolls, (n - 1) as nat) + if e.player_state == AttackState::NotAttacking {
            Seq::empty()
        } else {
            strike_commands(
                e.obstacle,
                e.obstacle_kind,
                e.obstacle_pos,
                e.player_pos,
                true,
                knockback_spec(e.obstacle_pos, e.player_pos, rolls[2 * (n - 1)], rolls[2 * (n - 1) + 1]),
            )
        }
    }
}

/// The score events of the first `n` player collisions: one for each bird an
/// attacking player strikes.
pub open spec fn player_scores(evs: Seq<CollisionEvent>, n: nat) -> Seq<ScoreEvent>
    decreases n,
{
    if n == 0 || n > evs.len() {
        Seq::empty()
    } else {
        let e = evs[n - 1];
        player_scores(evs, (n - 1) as nat) + if e.player_state == AttackState::NotAttacking {
            Seq::empty()
        } else {
            score_seq(strike_score(e.obstacle_kind))
        }
    }
}

/// Whether an unarmed player came within a kill radius.
pub open spec fn deadly_contact(evs: Seq<CollisionEvent>) -> bool {
    exists|i: int| 0 <= i < evs.len() && (#[trigger] evs[i]).player_state == AttackState::NotAttacking && evs[i].is_deadly
}

/// Whether a projectile event is close enough to count.
pub open spec fn in_reach(e: ProjectileCollisionEvent) -> bool {
    dist_sq(e.hit_pos, e.projectile_pos) <= PROJECTILE_REACH * PROJECTILE_REACH
}

/// The commands for the first `n` projectile hits: a hit within reach
/// strikes the obstacle; one farther away is ignored.
pub open spec fn projectile_commands(evs: Seq<ProjectileCollisionEvent>, rolls: Seq<u32>, n: nat) -> Seq<Command>
    decreases n,
{
    if n == 0 || n > evs.len() {
        Seq::empty()
    } else {
        let e = evs[n - 1];
        projectile_commands(evs, rolls, (n - 1) as nat) + if !in_reach(e) {
            Seq::empty()
        } else {
            strike_commands(
                e.hit,
                e.hit_kind,
                e.hit_pos,
                e.projectile_pos,
                false,
                knockback_spec(e.hit_pos, e.projectile_pos, rolls[2 * (n - 1)], rolls[2 * (n - 1) + 1]),
            )
        }
    }
}

/// The score events of the first `n` projectile hits.
pub open spec fn projectile_scores(evs: Seq<ProjectileCollisionEvent>, n: nat) -> Seq<ScoreEvent>
    decreases n,
{
    if n == 0 || n > evs.len() {
        Seq::empty()
    } else {
        let e = evs[n - 1];
        projectile_scores(evs, (n - 1) as nat) + if !in_reach(e) {
            Seq::empty()
        } else {
            score_seq(strike_score(e.hit_kind))
        }
    }
}

pub open spec fn collision_events_wf(evs: Seq<CollisionEvent>) -> bool {
    forall|i: int| 0 <= i < evs.len() ==> (#[trigger] evs[i]).player_pos.wf() && evs[i].obstacle_pos.wf()
}

pub open spec fn projectile_events_wf(evs: Seq<ProjectileCollisionEvent>) -> bool {
    forall|i: int| 0 <= i < evs.len() ==> (#[trigger] evs[i]).projectile_pos.wf() && evs[i].hit_pos.wf()
}

proof fn lemma_commands_wf_append(a: Seq<Command>, b: Seq<Command>)
    requires
        commands_wf(a),
        commands_wf(b),
    ensures
        commands_wf(a + b),
{
    assert forall|i: int| 0 <= i < (a + b).len() implies #[trigger] (a + b)[i].wf() by {
        if i < a.len() {
            assert((a + b)[i] == a[i]);
        } else {
            assert((a + b)[i] == b[i - a.len()]);
        }
    }
}

/// Resolves the player's collisions: an attacking player strikes each
/// obstacle it touches, using two rolls per event; an unarmed player within
/// a kill radius ends the game.
pub fn player_collision_outcome(evs: &Vec<CollisionEvent>, rolls: &Vec<u32>) -> (r: Outcome)
    requires
        rolls@.len() == 2 * evs@.len(),
        collision_events_wf(evs@),
    ensures
        r.commands@ == player_commands(evs@, rolls@, evs@.len()),
        r.score_events@ == player_scores(evs@, evs@.len()),
        r.game_over == deadly_contact(evs@),
        commands_wf(r.commands@),
{
    let mut commands: Vec<Command> = Vec::new();
    let mut score_events: Vec<ScoreEvent> = Vec::new();
    let mut game_over = false;
    let n_rolls: usize = rolls.len();
    let mut i: usize = 0;
    while i < evs.len()
        invariant
            n_rolls == rolls@.len(),
            rolls@.len() == 2 * evs@.len(),
            collision_events_wf(evs@),
            i <= evs@.len(),
            commands@ == player_commands(evs@, rolls@, i as nat),
            score_events@ == player_scores(evs@, i as nat),
            commands_wf(commands@),
            game_over == exists|k: int| 0 <= k < i && (#[trigger] evs@[k]).player_state == AttackState::NotAttacking && evs@[k].is_deadly,
        decreases evs@.len() - i,
    {
        let e = evs[i];
        assert(evs@[i as int].player_pos.wf());
        if e.player_state == AttackState::NotAttacking {
            if e.is_deadly {
                game_over = true;
            }
            assert(commands@ + Seq::<Command>::empty() == commands@);
            assert(score_events@ + Seq::<ScoreEvent>::empty() == score_events@);
        } else {
            assert(2 * i + 1 < n_rolls);
            let (mut cmds, score) = strike(e.obstacle, e.obstacle_kind, e.obstacle_pos, e.player_pos, true, rolls[2 * i], rolls[2 * i + 1]);
            proof {
                lemma_commands_wf_append(commands@, cmds@);
            }
            commands.append(&mut cmds);
            match score {
                Some(v) => score_events.push(v),
                None => {
                    assert(score_events@ + Seq::<ScoreEvent>::empty() == score_events@);
                },
            }
        }
        i = i + 1;
    }
    proof {
        assert(game_over == deadly_contact(evs@));
    }
    Outcome { commands, score_events, game_over }
}

/// Whether an unarmed player came within a kill radius in `evs`.
pub fn any_deadly(evs: &Vec<CollisionEvent>) -> (r: bool)
    ensures
        r == deadly_contact(evs@),
{
    let mut i: usize = 0;
    while i < evs.len()
        invariant
            i <= evs@.len(),
            forall|k: int| 0 <= k < i ==> !((#[trigger] evs@[k]).player_state == AttackState::NotAttacking && evs@[k].is_deadly),
        decreases evs@.len() - i,
    {
        if evs[i].player_state == AttackState::NotAttacking && evs[i].is_deadly {
            return true;
        }
        i = i + 1;
    }
    false
}

/// Whether a projectile hit is close enough to count.
pub fn is_in_reach(e: ProjectileCollisionEvent) -> (r: bool)
    requires
        e.hit_pos.wf(),
        e.projectile_pos.wf(),
    ensures
        r == in_reach(e),
{
    squared_distance(e.hit_pos, e.projectile_pos) <= 10_000_000_000
}

/// Resolves projectile hits: each hit within reach strikes the obstacle,
/// using two rolls per event; a projectile passes through clouds.
pub fn projectile_outcome(evs: &Vec<ProjectileCollisionEvent>, rolls: &Vec<u32>) -> (r: Outcome)
    requires
        rolls@.len() == 2 * evs@.len(),
        projectile_events_wf(evs@),
    ensures
        r.commands@ == projectile_commands(evs@, rolls@, evs@.len()),
        r.score_events@ == projectile_scores(evs@, evs@.len()),
        !r.game_over,
        commands_wf(r.commands@),
{
    let mut commands: Vec<Command> = Vec::new();
    let mut score_events: Vec<ScoreEvent> = Vec::new();
    let n_rolls: usize = rolls.len();
    let mut i: usize = 0;
    while i < evs.len()
        invariant
            n_rolls == rolls@.len(),
            rolls@.len() == 2 * evs@.len(),
            projectile_events_wf(evs@),
            i <= evs@.len(),
            commands@ == projectile_commands(evs@, rolls@, i as nat),
            score_events@ == projectile_scores(evs@, i as nat),
            commands_wf(commands@),
        decreases evs@.len() - i,
    {
        let e = evs[i];
        assert(evs@[i as int].hit_pos.wf());
        if !is_in_reach(e) {
            assert(commands@ + Seq::<Command>::empty() == commands@);
            assert(score_events@ + Seq::<ScoreEvent>::empty() == score_events@);
        } else {
            assert(2 * i + 1 < n_rolls);
            let (mut cmds, score) = strike(e.hit, e.hit_kind, e.hit_pos, e.projectile_pos, false, rolls[2 * i], rolls[2 * i + 1]);
            proof {
                lemma_commands_wf_append(commands@, cmds@);
            }
            commands.append(&mut cmds);
            match score {
                Some(v) => score_events.push(v),
                None => {
                    assert(score_events@ + Seq::<ScoreEvent>::empty() == score_events@);
                },
            }
        }
        i = i + 1;
    }
    Outcome { commands, score_events, game_over: false }
}

/// Countdown given to an obstacle that left the play area, in microseconds.
pub const ESCAPED_LIFETIME_US: i64 = 1_000_000;

/// The command retiring `s`, if it is an obstacle not yet dead that has
/// left the play area.
pub open spec fn escape_command(area: PlayArea, s: Slot) -> Option<Command> {
    match (s.parts.obstacle, s.parts.transform, s.parts.dead) {
        (Some(_), Some(t), None) => if escaped_spec(area, t.translation) {
            Some(Command::Update(SlotOp::Retire(s.entity, ESCAPED_LIFETIME_US)))
        } else {
            None
        },
        _ => None,
    }
}

/// The combo reset owed for `s`: a live bird that escaped breaks the combo.
pub open spec fn escape_score(area: PlayArea, s: Slot) -> Option<ScoreEvent> {
    match (escape_command(area, s), s.parts.obstacle) {
        (Some(_), Some(o)) => if !o.defeated && o.kind == ObstacleKind::Bird {
            Some(ScoreEvent::ResetCombo)
        } else {
            None
        },
        _ => None,
    }
}

pub open spec fn escape_command_fn(area: PlayArea) -> spec_fn(Slot) -> Option<Command> {
    |s: Slot| escape_command(area, s)
}

pub open spec fn escape_score_fn(area: PlayArea) -> spec_fn(Slot) -> Option<ScoreEvent> {
    |s: Slot| escape_score(area, s)
}

/// Retires every obstacle that has left the play area past its left or
/// bottom edge, and breaks the combo for each live bird among them.
pub fn boundary_sweep(world: &World, area: PlayArea) -> (r: (Vec<Command>, Vec<ScoreEvent>))
    requires
        world.wf(),
        area.wf(),
    ensures
        r.0@ == world@.slots.filter_map(escape_command_fn(area)),
        r.1@ == world@.slots.filter_map(escape_score_fn(area)),
        commands_wf(r.0@),
{
    let slots = world.slots();
    let ghost f = escape_command_fn(area);
    let ghost g = escape_score_fn(area);
    let mut cmds: Vec<Command> = Vec::new();
    let mut resets: Vec<ScoreEvent> = Vec::new();
    let mut i: usize = 0;
    while i < slots.len()
        invariant
            slots@ == world@.slots,
            area.wf(),
            f == escape_command_fn(area),
            g == escape_score_fn(area),
            i <= slots@.len(),
            cmds@ == slots@.take(i as int).filter_map(f),
            resets@ == slots@.take(i as int).filter_map(g),
            commands_wf(cmds@),
        decreases slots@.len() - i,
    {
        proof {
            slots@.lemma_filter_map_take_succ(f, i as int);
            slots@.lemma_filter_map_take_succ(g, i as int);
            assert(f(slots@[i as int]) == escape_command(area, slots@[i as int]));
            assert(g(slots@[i as int]) == escape_score(area, slots@[i as int]));
        }
        let s = slots[i];
        match (s.parts.obstacle, s.parts.transform, s.parts.dead) {
            (Some(o), Some(t), None) => {
                if escaped(area, t.translation) {
                    cmds.push(Command::Update(SlotOp::Retire(s.entity, ESCAPED_LIFETIME_US)));
                    if !o.defeated && o.kind == ObstacleKind::Bird {
                        resets.push(ScoreEvent::ResetCombo);
                    }
                }
            },
            _ => {},
        }
        i = i + 1;
    }
    proof {
        assert(slots@.take(slots@.len() as int) == slots@);
    }
    (cmds, resets)
}

} // verus!

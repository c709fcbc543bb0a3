//! Fixed-point kinematics: the gravity blend, position integration, facing,
//! and the overlap and kill-radius tests used by collision detection.
//!
//! Lengths are in thousandths of a world unit, speeds in thousandths of a
//! unit per second, tick lengths in microseconds, and decay rates in
//! thousandths per second.
use vstd::prelude::*;
use vstd::arithmetic::div_mod::{
    lemma_div_is_ordered, lemma_div_by_multiple, lemma_fundamental_div_mod, lemma_div_pos_is_pos,
};

verus! {

/// Largest magnitude of any coordinate, speed or extent; values saturate here.
pub const COORD_LIMIT: i64 = 1_000_000_000_000_000;

/// The downward speed that gravity pulls every falling body toward.
pub const TERMINAL_VELOCITY: i64 = -500_000;

/// A decay rate times a tick length equal to this is a decay of one whole.
pub const DECAY_SCALE: i64 = 1_000_000_000;

/// Microseconds in a second.
pub const MICROS_PER_SECOND: i64 = 1_000_000;

/// Largest magnitude of a component of a facing's neutral vector.
pub const NEUTRAL_LIMIT: i64 = 1000;

/// A point or a vector in the plane.
#[derive(Clone, Copy, Debug, PartialEq, Eq, Structural)]
pub struct Vec2 {
    pub x: i64,
    pub y: i64,
}

/// Position and rotation of an entity. The rotation is kept as a heading
/// vector: the rotation angle is the direction of `rotation`, and `(1, 0)`
/// is no rotation.
#[derive(Clone, Copy, Debug, PartialEq, Eq, Structural)]
pub struct Transform {
    pub translation: Vec2,
    pub rotation: Vec2,
}

/// Velocity of an entity.
#[derive(Clone, Copy, Debug, PartialEq, Eq, Structural)]
pub struct Movement {
    pub x: i64,
    pub y: i64,
}

/// Per-axis decay rates pulling an entity's velocity toward terminal velocity.
#[derive(Clone, Copy, Debug, PartialEq, Eq, Structural)]
pub struct Gravity {
    pub x: u32,
    pub y: u32,
}

/// Box extents of an obstacle, and the inner distance that is fatal to an
/// unarmed player.
#[derive(Clone, Copy, Debug, PartialEq, Eq, Structural)]
pub struct Collider {
    pub collision_size: Vec2,
    pub kill_size: i64,
}

/// Box extents of the player.
#[derive(Clone, Copy, Debug, PartialEq, Eq, Structural)]
pub struct PlayerCollider {
    pub collision_size: Vec2,
}

/// Debris still able to strike an obstacle, with its own box extents.
#[derive(Clone, Copy, Debug, PartialEq, Eq, Structural)]
pub struct Projectile {
    pub size: Vec2,
}

/// The direction a sprite faces when not rotated.
#[derive(Clone, Copy, Debug, PartialEq, Eq, Structural)]
pub struct FaceMovementDirection {
    pub neutral: Vec2,
}

pub open spec fn abs(v: int) -> int {
    if v < 0 { -v } else { v }
}

pub open spec fn in_range(v: int) -> bool {
    -COORD_LIMIT <= v <= COORD_LIMIT
}

pub open spec fn extent_ok(v: int) -> bool {
    0 <= v <= COORD_LIMIT
}

pub open spec fn clamp_coord(v: int) -> int {
    if v < -COORD_LIMIT {
        -COORD_LIMIT as int
    } else if v > COORD_LIMIT {
        COORD_LIMIT as int
    } else {
        v
    }
}

/// Division rounding toward zero, for a positive divisor.
pub open spec fn trunc_div(a: int, b: int) -> int {
    if a >= 0 { a / b } else { -((-a) / b) }
}

impl Vec2 {
    pub open spec fn wf(self) -> bool {
        in_range(self.x as int) && in_range(self.y as int)
    }

    pub open spec fn is_extent(self) -> bool {
        extent_ok(self.x as int) && extent_ok(self.y as int)
    }
}

impl Transform {
    pub open spec fn wf(self) -> bool {
        self.translation.wf()
    }
}

impl Movement {
    pub open spec fn wf(self) -> bool {
        in_range(self.x as int) && in_range(self.y as int)
    }
}

impl Collider {
    pub open spec fn wf(self) -> bool {
        self.collision_size.is_extent() && extent_ok(self.kill_size as int)
    }
}

impl PlayerCollider {
    pub open spec fn wf(self) -> bool {
        self.collision_size.is_extent()
    }
}

impl Projectile {
    pub open spec fn wf(self) -> bool {
        self.size.is_extent()
    }
}

impl FaceMovementDirection {
    pub open spec fn wf(self) -> bool {
        abs(self.neutral.x as int) <= NEUTRAL_LIMIT && abs(self.neutral.y as int) <= NEUTRAL_LIMIT
    }
}

impl Default for Gravity {
    /// The decay rates a falling body is given: one per second sideways, two
    /// per second vertically.
    fn default() -> (r: Gravity)
        ensures
            r == (Gravity { x: 1000, y: 2000 }),
    {
        Gravity { x: 1000, y: 2000 }
    }
}

/// `v` blended toward `target` by `decay` parts of `DECAY_SCALE`:
/// `target + (v - target) * (1 - decay)`, rounded toward `target`, saturating.
pub open spec fn blend(v: int, target: int, decay: int) -> int {
    clamp_coord(target + trunc_div((v - target) * (DECAY_SCALE - decay), DECAY_SCALE as int))
}

/// Velocity after one gravity update of `dt_us` microseconds: the sideways
/// speed decays toward zero, the vertical speed toward terminal velocity.
pub open spec fn gravity_spec(m: Movement, g: Gravity, dt_us: u32) -> Movement {
    Movement {
        x: blend(m.x as int, 0, g.x * dt_us) as i64,
        y: blend(m.y as int, TERMINAL_VELOCITY as int, g.y * dt_us) as i64,
    }
}

/// Position after moving at `m` for `dt_us` microseconds, saturating.
pub open spec fn advance_spec(p: Vec2, m: Movement, dt_us: u32) -> Vec2 {
    Vec2 {
        x: clamp_coord(p.x + trunc_div(m.x * dt_us, MICROS_PER_SECOND as int)) as i64,
        y: clamp_coord(p.y + trunc_div(m.y * dt_us, MICROS_PER_SECOND as int)) as i64,
    }
}

/// The heading that turns `neutral` onto the direction of `m`: its angle is
/// the signed angle from `neutral` to `m`. `None` when either is zero. For a
/// facing and a velocity within bounds both components stay within
/// `2 * NEUTRAL_LIMIT * COORD_LIMIT`, far inside `i64` (see
/// `lemma_facing_exact`), so the casts lose nothing.
pub open spec fn facing_spec(neutral: Vec2, m: Movement) -> Option<Vec2> {
    if (m.x == 0 && m.y == 0) || (neutral.x == 0 && neutral.y == 0) {
        None
    } else {
        Some(
            Vec2 {
                x: (neutral.x * m.x + neutral.y * m.y) as i64,
                y: (neutral.x * m.y - neutral.y * m.x) as i64,
            },
        )
    }
}

/// Whether two boxes, given by centre and full size, overlap with positive area.
pub open spec fn boxes_overlap(a: Vec2, a_size: Vec2, b: Vec2, b_size: Vec2) -> bool {
    2 * abs(a.x - b.x) < a_size.x + b_size.x && 2 * abs(a.y - b.y) < a_size.y + b_size.y
}

/// Squared Euclidean distance between two points.
pub open spec fn dist_sq(a: Vec2, b: Vec2) -> int {
    (a.x - b.x) * (a.x - b.x) + (a.y - b.y) * (a.y - b.y)
}

/// Whether `a` lies strictly closer to `b` than `radius`.
pub open spec fn within_radius(a: Vec2, b: Vec2, radius: int) -> bool {
    dist_sq(a, b) < radius * radius
}

proof fn lemma_scaled_quotient(a: int, f: int, s: int)
    requires
        a >= 0,
        0 <= f <= s,
        s > 0,
    ensures
        0 <= (a * f) / s <= a,
        (f < s && a > 0) ==> (a * f) / s < a,
{
    assert(0 <= a * f <= a * s) by (nonlinear_arith)
        requires
            a >= 0,
            0 <= f <= s,
    ;
    lemma_div_pos_is_pos(a * f, s);
    lemma_div_is_ordered(a * f, a * s, s);
    lemma_div_by_multiple(a, s);
    if f < s && a > 0 {
        lemma_fundamental_div_mod(a * f, s);
        let q = (a * f) / s;
        let r = (a * f) % s;
        assert(q < a) by (nonlinear_arith)
            requires
                a * f == s * q + r,
                0 <= r,
                f < s,
                a > 0,
                s > 0,
        ;
    }
}

pub(crate) proof fn lemma_trunc_div_bound(a: int, b: int)
    requires
        b > 0,
    ensures
        abs(trunc_div(a, b)) <= abs(a),
        a >= 0 ==> trunc_div(a, b) >= 0,
        a <= 0 ==> trunc_div(a, b) <= 0,
{
    if a >= 0 {
        lemma_div_pos_is_pos(a, b);
        assert(a / b <= a) by (nonlinear_arith)
            requires
                a >= 0,
                b > 0,
        {
            lemma_div_is_ordered(a, a * b, b);
            lemma_div_by_multiple(a, b);
        }
    } else {
        lemma_div_pos_is_pos(-a, b);
        assert((-a) / b <= -a) by (nonlinear_arith)
            requires
                a < 0,
                b > 0,
        {
            lemma_div_is_ordered(-a, (-a) * b, b);
            lemma_div_by_multiple(-a, b);
        }
    }
}

pub(crate) fn trunc_div_exec(a: i128, b: i128) -> (r: i128)
    requires
        b > 0,
        a > i128::MIN,
    ensures
        r == trunc_div(a as int, b as int),
{
    proof {
        lemma_trunc_div_bound(a as int, b as int);
    }
    if a >= 0 {
        a / b
    } else {
        let n: i128 = -a;
        -(n / b)
    }
}

fn clamp_exec(v: i128) -> (r: i64)
    ensures
        r == clamp_coord(v as int),
{
    if v < -(COORD_LIMIT as i128) {
        -COORD_LIMIT
    } else if v > COORD_LIMIT as i128 {
        COORD_LIMIT
    } else {
        v as i64
    }
}

/// Blends `v` toward `target` by `decay` parts of `DECAY_SCALE`, rounding
/// toward `target` and saturating at the coordinate limit.
pub fn blend_toward(v: i64, target: i64, decay: u64) -> (r: i64)
    requires
        in_range(v as int),
        in_range(target as int),
    ensures
        r == blend(v as int, target as int, decay as int),
        in_range(r as int),
{
    let diff: i128 = v as i128 - target as i128;
    let factor: i128 = DECAY_SCALE as i128 - decay as i128;
    assert(-2_000_000_000_000_000 * 0x1_0000_0000_0000_0000 <= diff * factor
        <= 2_000_000_000_000_000 * 0x1_0000_0000_0000_0000) by (nonlinear_arith)
        requires
            -2_000_000_000_000_000 <= diff <= 2_000_000_000_000_000,
            -0x1_0000_0000_0000_0000 <= factor <= 0x1_0000_0000_0000_0000,
    ;
    let prod: i128 = diff * factor;
    let q: i128 = trunc_div_exec(prod, DECAY_SCALE as i128);
    proof {
        lemma_trunc_div_bound(prod as int, DECAY_SCALE as int);
    }
    clamp_exec(target as i128 + q)
}

/// One gravity update: the sideways speed decays toward zero and the vertical
/// speed toward `TERMINAL_VELOCITY`, each by its rate times `dt_us`.
pub fn apply_gravity(m: Movement, g: Gravity, dt_us: u32) -> (r: Movement)
    requires
        m.wf(),
    ensures
        r == gravity_spec(m, g, dt_us),
        r.wf(),
{
    assert(g.x as u64 * dt_us as u64 <= 0xFFFF_FFFF * 0xFFFF_FFFF) by (nonlinear_arith)
        requires g.x <= 0xFFFF_FFFF, dt_us <= 0xFFFF_FFFF;
    assert(g.y as u64 * dt_us as u64 <= 0xFFFF_FFFF * 0xFFFF_FFFF) by (nonlinear_arith)
        requires g.y <= 0xFFFF_FFFF, dt_us <= 0xFFFF_FFFF;
    let dx: u64 = g.x as u64 * dt_us as u64;
    let dy: u64 = g.y as u64 * dt_us as u64;
    Movement { x: blend_toward(m.x, 0, dx), y: blend_toward(m.y, TERMINAL_VELOCITY, dy) }
}

/// Moves `p` at velocity `m` for `dt_us` microseconds, saturating at the
/// coordinate limit.
pub fn advance_position(p: Vec2, m: Movement, dt_us: u32) -> (r: Vec2)
    requires
        m.wf(),
        p.wf(),
    ensures
        r == advance_spec(p, m, dt_us),
        r.wf(),
{
    let bound: i128 = COORD_LIMIT as i128 * 0x1_0000_0000;
    assert(-bound <= m.x as i128 * dt_us as i128 <= bound) by (nonlinear_arith)
        requires
            in_range(m.x as int),
            0 <= dt_us <= 0xFFFF_FFFF,
            bound == COORD_LIMIT * 0x1_0000_0000,
    ;
    assert(-bound <= m.y as i128 * dt_us as i128 <= bound) by (nonlinear_arith)
        requires
            in_range(m.y as int),
            0 <= dt_us <= 0xFFFF_FFFF,
            bound == COORD_LIMIT * 0x1_0000_0000,
    ;
    let sx: i128 = trunc_div_exec(m.x as i128 * dt_us as i128, MICROS_PER_SECOND as i128);
    let sy: i128 = trunc_div_exec(m.y as i128 * dt_us as i128, MICROS_PER_SECOND as i128);
    proof {
        lemma_trunc_div_bound(m.x as i128 * dt_us as i128, MICROS_PER_SECOND as int);
        lemma_trunc_div_bound(m.y as i128 * dt_us as i128, MICROS_PER_SECOND as int);
    }
    Vec2 { x: clamp_exec(p.x as i128 + sx), y: clamp_exec(p.y as i128 + sy) }
}

/// The heading that turns `face.neutral` onto the direction of `m`, or
/// `None` when either vector is zero (no rotation change).
pub fn facing_heading(face: FaceMovementDirection, m: Movement) -> (r: Option<Vec2>)
    requires
        face.wf(),
        m.wf(),
    ensures
        r == facing_spec(face.neutral, m),
        r matches Some(h) ==> h.x == face.neutral.x * m.x + face.neutral.y * m.y
            && h.y == face.neutral.x * m.y - face.neutral.y * m.x,
{
    let n = face.neutral;
    if (m.x == 0 && m.y == 0) || (n.x == 0 && n.y == 0) {
        return None;
    }
    let nx: i128 = n.x as i128;
    let ny: i128 = n.y as i128;
    let vx: i128 = m.x as i128;
    let vy: i128 = m.y as i128;
    assert(-1_000_000_000_000_000_000 <= nx * vx <= 1_000_000_000_000_000_000) by (nonlinear_arith)
        requires -1000 <= nx <= 1000, -COORD_LIMIT <= vx <= COORD_LIMIT;
    assert(-1_000_000_000_000_000_000 <= ny * vy <= 1_000_000_000_000_000_000) by (nonlinear_arith)
        requires -1000 <= ny <= 1000, -COORD_LIMIT <= vy <= COORD_LIMIT;
    assert(-1_000_000_000_000_000_000 <= nx * vy <= 1_000_000_000_000_000_000) by (nonlinear_arith)
        requires -1000 <= nx <= 1000, -COORD_LIMIT <= vy <= COORD_LIMIT;
    assert(-1_000_000_000_000_000_000 <= ny * vx <= 1_000_000_000_000_000_000) by (nonlinear_arith)
        requires -1000 <= ny <= 1000, -COORD_LIMIT <= vx <= COORD_LIMIT;
    let dot: i128 = nx * vx + ny * vy;
    let cross: i128 = nx * vy - ny * vx;
    Some(Vec2 { x: dot as i64, y: cross as i64 })
}

/// Whether two boxes, given by centre and full size, overlap with positive area.
pub fn overlaps(a: Vec2, a_size: Vec2, b: Vec2, b_size: Vec2) -> (r: bool)
    requires
        a.wf(),
        b.wf(),
        a_size.is_extent(),
        b_size.is_extent(),
    ensures
        r == boxes_overlap(a, a_size, b, b_size),
{
    let dx: i128 = a.x as i128 - b.x as i128;
    let dy: i128 = a.y as i128 - b.y as i128;
    let adx: i128 = if dx < 0 { -dx } else { dx };
    let ady: i128 = if dy < 0 { -dy } else { dy };
    2 * adx < a_size.x as i128 + b_size.x as i128 && 2 * ady < a_size.y as i128
        + b_size.y as i128
}

/// Whether `a` lies strictly closer to `b` than `radius`.
pub fn is_within(a: Vec2, b: Vec2, radius: i64) -> (r: bool)
    requires
        a.wf(),
        b.wf(),
        extent_ok(radius as int),
    ensures
        r == within_radius(a, b, radius as int),
{
    let dx: i128 = a.x as i128 - b.x as i128;
    let dy: i128 = a.y as i128 - b.y as i128;
    let rr: i128 = radius as i128;
    assert(0 <= dx * dx <= 4_000_000_000_000_000_000_000_000_000_000) by (nonlinear_arith)
        requires -2_000_000_000_000_000 <= dx <= 2_000_000_000_000_000;
    assert(0 <= dy * dy <= 4_000_000_000_000_000_000_000_000_000_000) by (nonlinear_arith)
        requires -2_000_000_000_000_000 <= dy <= 2_000_000_000_000_000;
    assert(0 <= rr * rr <= 1_000_000_000_000_000_000_000_000_000_000) by (nonlinear_arith)
        requires 0 <= rr <= COORD_LIMIT;
    dx * dx + dy * dy < rr * rr
}

/// Within bounds, the heading's components are the exact dot and cross
/// products of the neutral vector and the velocity, each at most
/// `2 * NEUTRAL_LIMIT * COORD_LIMIT` in magnitude.
pub proof fn lemma_facing_exact(face: FaceMovementDirection, m: Movement)
    requires
        face.wf(),
        m.wf(),
    ensures
        facing_spec(face.neutral, m) matches Some(h) ==> {
            &&& h.x == face.neutral.x * m.x + face.neutral.y * m.y
            &&& h.y == face.neutral.x * m.y - face.neutral.y * m.x
            &&& abs(h.x as int) <= 2 * NEUTRAL_LIMIT * COORD_LIMIT
            &&& abs(h.y as int) <= 2 * NEUTRAL_LIMIT * COORD_LIMIT
        },
{
    let (nx, ny, vx, vy) = (face.neutral.x as int, face.neutral.y as int, m.x as int, m.y as int);
    assert(-1_000_000_000_000_000_000 <= nx * vx <= 1_000_000_000_000_000_000) by (nonlinear_arith)
        requires -1000 <= nx <= 1000, -COORD_LIMIT <= vx <= COORD_LIMIT;
    assert(-1_000_000_000_000_000_000 <= ny * vy <= 1_000_000_000_000_000_000) by (nonlinear_arith)
        requires -1000 <= ny <= 1000, -COORD_LIMIT <= vy <= COORD_LIMIT;
    assert(-1_000_000_000_000_000_000 <= nx * vy <= 1_000_000_000_000_000_000) by (nonlinear_arith)
        requires -1000 <= nx <= 1000, -COORD_LIMIT <= vy <= COORD_LIMIT;
    assert(-1_000_000_000_000_000_000 <= ny * vx <= 1_000_000_000_000_000_000) by (nonlinear_arith)
        requires -1000 <= ny <= 1000, -COORD_LIMIT <= vx <= COORD_LIMIT;
}

/// Squared Euclidean distance between two points.
pub fn squared_distance(a: Vec2, b: Vec2) -> (r: i128)
    requires
        a.wf(),
        b.wf(),
    ensures
        r == dist_sq(a, b),
{
    let dx: i128 = a.x as i128 - b.x as i128;
    let dy: i128 = a.y as i128 - b.y as i128;
    assert(0 <= dx * dx <= 4_000_000_000_000_000_000_000_000_000_000) by (nonlinear_arith)
        requires -2_000_000_000_000_000 <= dx <= 2_000_000_000_000_000;
    assert(0 <= dy * dy <= 4_000_000_000_000_000_000_000_000_000_000) by (nonlinear_arith)
        requires -2_000_000_000_000_000 <= dy <= 2_000_000_000_000_000;
    dx * dx + dy * dy
}

/// Box overlap does not depend on which box is named first.
pub proof fn lemma_overlap_symmetric(a: Vec2, a_size: Vec2, b: Vec2, b_size: Vec2)
    ensures
        boxes_overlap(a, a_size, b, b_size) == boxes_overlap(b, b_size, a, a_size),
{
}

/// `blend` applied `n` times with the same decay.
pub open spec fn blend_times(v: int, target: int, decay: int, n: nat) -> int
    decreases n,
{
    if n == 0 {
        v
    } else {
        blend(blend_times(v, target, decay, (n - 1) as nat), target, decay)
    }
}

/// One gravity blend whose decay is at most a whole stays between the old
/// speed and the terminal speed: it never passes terminal velocity, and while
/// the decay is positive it strictly closes the gap.
pub proof fn lemma_blend_step(v: int, target: int, decay: int)
    requires
        in_range(v),
        in_range(target),
        0 <= decay <= DECAY_SCALE,
    ensures
        v >= target ==> target <= blend(v, target, decay) <= v,
        v <= target ==> v <= blend(v, target, decay) <= target,
        (decay > 0 && v != target) ==> abs(blend(v, target, decay) - target) < abs(v - target),
{
    let f = DECAY_SCALE - decay;
    if v >= target {
        lemma_scaled_quotient(v - target, f, DECAY_SCALE as int);
    } else {
        lemma_scaled_quotient(target - v, f, DECAY_SCALE as int);
        assert((v - target) * f == -((target - v) * f)) by (nonlinear_arith);
    }
}

/// Repeated gravity updates with a decay of at most a whole never carry a
/// falling speed past terminal velocity, and with a positive decay they reach
/// it exactly within as many updates as the starting gap.
pub proof fn lemma_gravity_converges(v: int, decay: int, n: nat)
    requires
        in_range(v),
        0 <= decay <= DECAY_SCALE,
    ensures
        v >= TERMINAL_VELOCITY ==> TERMINAL_VELOCITY <= blend_times(v, TERMINAL_VELOCITY as int, decay, n) <= v,
        v <= TERMINAL_VELOCITY ==> v <= blend_times(v, TERMINAL_VELOCITY as int, decay, n) <= TERMINAL_VELOCITY,
        abs(blend_times(v, TERMINAL_VELOCITY as int, decay, n) - TERMINAL_VELOCITY) <= abs(v - TERMINAL_VELOCITY),
        decay > 0 ==> abs(blend_times(v, TERMINAL_VELOCITY as int, decay, n) - TERMINAL_VELOCITY)
            <= (if abs(v - TERMINAL_VELOCITY) > n { abs(v - TERMINAL_VELOCITY) - n } else { 0 }),
    decreases n,
{
    if n > 0 {
        lemma_gravity_converges(v, decay, (n - 1) as nat);
        let w = blend_times(v, TERMINAL_VELOCITY as int, decay, (n - 1) as nat);
        lemma_blend_step(w, TERMINAL_VELOCITY as int, decay);
    }
}

/// `blend` applied once for each decay of `decays`, in order.
pub open spec fn blend_each(v: int, target: int, decays: Seq<int>) -> int
    decreases decays.len(),
{
    if decays.len() == 0 {
        v
    } else {
        blend_each(blend(v, target, decays[0]), target, decays.drop_first())
    }
}

/// Gravity updates over ticks of any lengths, each with a decay of at most
/// a whole, never carry the vertical speed past terminal velocity and never
/// widen the gap to it; when every tick has a positive decay, each closes the
/// gap by at least one unit, so the speed reaches terminal velocity.
pub proof fn lemma_gravity_varying_ticks(v: int, decays: Seq<int>)
    requires
        in_range(v),
        forall|k: int| 0 <= k < decays.len() ==> 0 <= #[trigger] decays[k] <= DECAY_SCALE,
    ensures
        v >= TERMINAL_VELOCITY ==> TERMINAL_VELOCITY <= blend_each(v, TERMINAL_VELOCITY as int, decays) <= v,
        v <= TERMINAL_VELOCITY ==> v <= blend_each(v, TERMINAL_VELOCITY as int, decays) <= TERMINAL_VELOCITY,
        abs(blend_each(v, TERMINAL_VELOCITY as int, decays) - TERMINAL_VELOCITY) <= abs(v - TERMINAL_VELOCITY),
        (forall|k: int| 0 <= k < decays.len() ==> #[trigger] decays[k] > 0) ==> abs(
            blend_each(v, TERMINAL_VELOCITY as int, decays) - TERMINAL_VELOCITY,
        ) <= (if abs(v - TERMINAL_VELOCITY) > decays.len() {
            abs(v - TERMINAL_VELOCITY) - decays.len()
        } else {
            0
        }),
    decreases decays.len(),
{
    if decays.len() > 0 {
        if forall|k: int| 0 <= k < decays.len() ==> #[trigger] decays[k] > 0 {
            let rest = decays.drop_first();
            assert forall|k: int| 0 <= k < rest.len() implies #[trigger] rest[k] > 0 by {
                assert(rest[k] == decays[k + 1]);
            }
            assert(decays[0] > 0);
        }
        lemma_blend_step(v, TERMINAL_VELOCITY as int, decays[0]);
        let w = blend(v, TERMINAL_VELOCITY as int, decays[0]);
        let rest = decays.drop_first();
        assert forall|k: int| 0 <= k < rest.len() implies 0 <= #[trigger] rest[k] <= DECAY_SCALE by {
            assert(rest[k] == decays[k + 1]);
        }
        lemma_gravity_varying_ticks(w, rest);
    }
}

} // verus!

//! Particles: each emission throws out short-lived particle entities, spread
//! around the emission direction by a random turn, up to a pool limit.
use vstd::prelude::*;
use vstd::arithmetic::div_mod::{
    lemma_div_is_ordered, lemma_div_by_multiple, lemma_fundamental_div_mod,
};
use crate::physics::{Movement, abs, trunc_div, trunc_div_exec, lemma_trunc_div_bound, COORD_LIMIT};
use crate::combat::{isqrt, integer_sqrt, lemma_axis_within_len};
use crate::components::{Components, Dead, Particle, placed, place};
use crate::world::{
    Command, Emission, World, Slot, commands_wf, emissions_wf, DIRECTION_LIMIT,
};

verus! {

/// Most particles alive at once.
pub const PARTICLE_LIMIT: usize = 500;

/// Lifetime of a particle, in microseconds.
pub const PARTICLE_LIFETIME_US: i64 = 500_000;

/// Directions are scaled down below this before they are spread.
pub const REDUCED_LIMIT: i128 = 0x100_0000_0000;

pub open spec fn max_abs(x: int, y: int) -> int {
    if abs(x) > abs(y) { abs(x) } else { abs(y) }
}

/// The common factor a direction is divided by to bring it below `REDUCED_LIMIT`.
pub open spec fn reduce_factor(x: int, y: int) -> int {
    max_abs(x, y) / (REDUCED_LIMIT as int) + 1
}

/// Tangent of a particle's turn away from the emission direction, in
/// thousandths: between -0.5 and 0.5.
pub open spec fn spread_turn(roll: u32) -> int {
    (roll % 1001) as int - 500
}

/// The emission direction `(x, y)`, scaled down, then turned by the roll:
/// `d + t * perp(d)` for the turn's tangent `t`.
pub open spec fn spread_dir(x: int, y: int, roll: u32) -> (int, int) {
    let f = reduce_factor(x, y);
    let rx = trunc_div(x, f);
    let ry = trunc_div(y, f);
    let t = spread_turn(roll);
    (rx * 1000 - t * ry, ry * 1000 + t * rx)
}

/// A particle's velocity: the spread direction scaled to `speed`, rounded
/// toward zero; none when the direction is zero.
pub open spec fn particle_velocity(x: int, y: int, speed: int, roll: u32) -> Movement {
    let (sx, sy) = spread_dir(x, y, roll);
    let len = isqrt(sx * sx + sy * sy);
    if len == 0 {
        Movement { x: 0, y: 0 }
    } else {
        Movement { x: trunc_div(sx * speed, len) as i64, y: trunc_div(sy * speed, len) as i64 }
    }
}

/// The particle that `e` throws out with `roll`.
pub open spec fn particle_spec(e: Emission, roll: u32) -> Components {
    Components {
        transform: Some(placed(e.at)),
        movement: Some(particle_velocity(e.direction_x as int, e.direction_y as int, e.speed as int, roll)),
        particle: Some(Particle { color: e.color, size: e.size }),
        dead: Some(Dead { timer_us: PARTICLE_LIFETIME_US }),
        ..Components::none()
    }
}

/// Particles due from the first `n` emissions of `es`.
pub open spec fn rolls_before(es: Seq<Emission>, n: nat) -> nat
    decreases n,
{
    if n == 0 || n > es.len() { 0 } else { rolls_before(es, (n - 1) as nat) + es[n - 1].count as nat }
}

/// The commands spawning the particles of the first `n` emissions of `es`,
/// one roll per particle, in order.
pub open spec fn emission_commands(es: Seq<Emission>, rolls: Seq<u32>, n: nat) -> Seq<Command>
    decreases n,
{
    if n == 0 || n > es.len() {
        Seq::empty()
    } else {
        let e = es[n - 1];
        let off = rolls_before(es, (n - 1) as nat);
        emission_commands(es, rolls, (n - 1) as nat) + Seq::new(
            e.count as nat,
            |k: int| Command::Spawn(particle_spec(e, rolls[off + k])),
        )
    }
}

pub open spec fn particle_entity(s: Slot) -> Option<Slot> {
    if s.parts.particle.is_some() { Some(s) } else { None }
}

pub open spec fn particle_fn() -> spec_fn(Slot) -> Option<Slot> {
    |s: Slot| particle_entity(s)
}

/// Number of live particles.
pub open spec fn live_particles(slots: Seq<Slot>) -> nat {
    slots.filter_map(particle_fn()).len()
}

/// How many more particles the pool admits.
pub open spec fn particle_room(slots: Seq<Slot>) -> nat {
    if live_particles(slots) < PARTICLE_LIMIT { (PARTICLE_LIMIT - live_particles(slots)) as nat } else { 0 }
}

/// The spawn commands kept when the pool admits only `room` more particles.
pub open spec fn within_pool(cmds: Seq<Command>, room: nat) -> Seq<Command> {
    if cmds.len() <= room { cmds } else { cmds.take(room as int) }
}

proof fn lemma_reduced_below(a: int, m: int)
    requires
        0 <= a <= m,
    ensures
        a / reduce_factor_of(m) < REDUCED_LIMIT,
{
    let r = REDUCED_LIMIT as int;
    let f = m / r + 1;
    lemma_fundamental_div_mod(m, r);
    assert(m < f * r) by (nonlinear_arith)
        requires m == r * (m / r) + m % r, m % r < r, f == m / r + 1;
    lemma_fundamental_div_mod(a, f);
    let q = a / f;
    assert(q < r) by (nonlinear_arith)
        requires a == f * q + a % f, 0 <= a % f, a < f * r, f >= 1;
}

pub open spec fn reduce_factor_of(m: int) -> int {
    m / (REDUCED_LIMIT as int) + 1
}

proof fn lemma_scaled_bound(v: int, len: int, speed: int)
    requires
        len >= 1,
        abs(v) <= len,
        0 <= speed,
    ensures
        abs(trunc_div(v * speed, len)) <= speed,
{
    let a = abs(v) * speed;
    assert(0 <= a <= len * speed) by (nonlinear_arith)
        requires abs(v) <= len, 0 <= abs(v), a == abs(v) * speed, 0 <= speed;
    lemma_div_is_ordered(a, speed * len, len);
    lemma_div_by_multiple(speed, len);
    lemma_div_is_ordered(0, a, len);
    if v < 0 {
        assert(-(v * speed) == a) by (nonlinear_arith)
            requires v < 0, a == abs(v) * speed;
    } else {
        assert(v * speed == a);
    }
}

fn scale_to(v: i128, len: u64, speed: i64) -> (r: i64)
    requires
        len >= 1,
        abs(v as int) <= len,
        -0x10_0000_0000_0000 <= v <= 0x10_0000_0000_0000,
        0 <= speed <= COORD_LIMIT,
    ensures
        r == trunc_div(v * speed, len as int),
        abs(r as int) <= speed,
{
    proof {
        lemma_scaled_bound(v as int, len as int, speed as int);
    }
    assert(-0x10_0000_0000_0000 * COORD_LIMIT <= v * speed <= 0x10_0000_0000_0000 * COORD_LIMIT) by (nonlinear_arith)
        requires -0x10_0000_0000_0000 <= v <= 0x10_0000_0000_0000, 0 <= speed <= COORD_LIMIT;
    let q = trunc_div_exec(v * speed as i128, len as i128);
    q as i64
}

/// The velocity of a particle thrown along `(x, y)` at `speed` with `roll`.
pub fn particle_velocity_of(x: i128, y: i128, speed: i64, roll: u32) -> (r: Movement)
    requires
        -DIRECTION_LIMIT <= x <= DIRECTION_LIMIT,
        -DIRECTION_LIMIT <= y <= DIRECTION_LIMIT,
        0 <= speed <= COORD_LIMIT,
    ensures
        r == particle_velocity(x as int, y as int, speed as int, roll),
        abs(r.x as int) <= speed,
        abs(r.y as int) <= speed,
        r.wf(),
{
    let ax: i128 = if x < 0 { -x } else { x };
    let ay: i128 = if y < 0 { -y } else { y };
    let m: i128 = if ax > ay { ax } else { ay };
    let f: i128 = m / REDUCED_LIMIT + 1;
    assert(f == reduce_factor(x as int, y as int));
    assert(f == reduce_factor_of(m as int));
    proof {
        lemma_div_is_ordered(0, m as int, REDUCED_LIMIT as int);
        lemma_trunc_div_bound(x as int, f as int);
        lemma_trunc_div_bound(y as int, f as int);
        lemma_reduced_below(ax as int, m as int);
        lemma_reduced_below(ay as int, m as int);
    }
    let rx: i128 = trunc_div_exec(x, f);
    let ry: i128 = trunc_div_exec(y, f);
    assert(abs(rx as int) < REDUCED_LIMIT);
    assert(abs(ry as int) < REDUCED_LIMIT);
    let t: i128 = (roll % 1001) as i128 - 500;
    assert(-0x10_0000_0000_0000 <= rx * 1000 - t * ry <= 0x10_0000_0000_0000) by (nonlinear_arith)
        requires -REDUCED_LIMIT < rx < REDUCED_LIMIT, -REDUCED_LIMIT < ry < REDUCED_LIMIT, -500 <= t <= 500;
    assert(-0x10_0000_0000_0000 <= ry * 1000 + t * rx <= 0x10_0000_0000_0000) by (nonlinear_arith)
        requires -REDUCED_LIMIT < rx < REDUCED_LIMIT, -REDUCED_LIMIT < ry < REDUCED_LIMIT, -500 <= t <= 500;
    let sx: i128 = rx * 1000 - t * ry;
    let sy: i128 = ry * 1000 + t * rx;
    assert(0 <= sx * sx <= 0x100_0000_0000_0000_0000_0000_0000) by (nonlinear_arith)
        requires -0x10_0000_0000_0000 <= sx <= 0x10_0000_0000_0000;
    assert(0 <= sy * sy <= 0x100_0000_0000_0000_0000_0000_0000) by (nonlinear_arith)
        requires -0x10_0000_0000_0000 <= sy <= 0x10_0000_0000_0000;
    let n: u128 = (sx * sx) as u128 + (sy * sy) as u128;
    let len: u64 = integer_sqrt(n);
    if len == 0 {
        return Movement { x: 0, y: 0 };
    }
    proof {
        lemma_axis_within_len(sx as int, sy as int, len as int);
        lemma_axis_within_len(sy as int, sx as int, len as int);
    }
    Movement { x: scale_to(sx, len, speed), y: scale_to(sy, len, speed) }
}

/// Total particles due from the emissions `es`, if it fits in `usize`.
pub fn particles_due(es: &Vec<Emission>) -> (r: Option<usize>)
    ensures
        r is Some <==> rolls_before(es@, es@.len()) <= usize::MAX,
        r matches Some(n) ==> n == rolls_before(es@, es@.len()),
{
    let mut total: u128 = 0;
    let mut i: usize = 0;
    while i < es.len()
        invariant
            i <= es@.len(),
            total == rolls_before(es@, i as nat),
            total <= 255 * i,
        decreases es@.len() - i,
    {
        total = total + es[i].count as u128;
        i = i + 1;
    }
    if total <= usize::MAX as u128 {
        Some(total as usize)
    } else {
        None
    }
}

proof fn lemma_rolls_before_grow(es: Seq<Emission>, m: nat, n: nat)
    requires
        m <= n <= es.len(),
    ensures
        rolls_before(es, m) <= rolls_before(es, n),
    decreases n,
{
    if m < n {
        lemma_rolls_before_grow(es, m, (n - 1) as nat);
    }
}

/// The commands spawning every particle due from `es`, one roll per particle.
pub fn particle_commands(es: &Vec<Emission>, rolls: &Vec<u32>) -> (r: Vec<Command>)
    requires
        emissions_wf(es@),
        rolls@.len() == rolls_before(es@, es@.len()),
    ensures
        r@ == emission_commands(es@, rolls@, es@.len()),
        commands_wf(r@),
{
    let n_rolls: usize = rolls.len();
    let mut out: Vec<Command> = Vec::new();
    let mut i: usize = 0;
    let mut off: usize = 0;
    while i < es.len()
        invariant
            n_rolls == rolls@.len(),
            emissions_wf(es@),
            rolls@.len() == rolls_before(es@, es@.len()),
            i <= es@.len(),
            off == rolls_before(es@, i as nat),
            out@ == emission_commands(es@, rolls@, i as nat),
            commands_wf(out@),
        decreases es@.len() - i,
    {
        let e = es[i];
        assert(es@[i as int].wf());
        proof {
            lemma_rolls_before_grow(es@, (i + 1) as nat, es@.len());
        }
        let ghost before = out@;
        let mut k: u8 = 0;
        while k < e.count
            invariant
                n_rolls == rolls@.len(),
                e.wf(),
                e == es@[i as int],
                rolls@.len() == rolls_before(es@, es@.len()),
                off + e.count <= rolls@.len(),
                off == rolls_before(es@, i as nat),
                k <= e.count,
                out@ == before + Seq::new(k as nat, |j: int| Command::Spawn(particle_spec(e, rolls@[off + j]))),
                commands_wf(out@),
                commands_wf(before),
            decreases e.count - k,
        {
            let roll = rolls[off + k as usize];
            let v = particle_velocity_of(e.direction_x, e.direction_y, e.speed, roll);
            let c = Components {
                transform: Some(place(e.at)),
                movement: Some(v),
                particle: Some(Particle { color: e.color, size: e.size }),
                dead: Some(Dead { timer_us: PARTICLE_LIFETIME_US }),
                ..Components::empty()
            };
            let ghost prev = out@;
            out.push(Command::Spawn(c));
            proof {
                assert(out@ == before + Seq::new((k + 1) as nat, |j: int| Command::Spawn(particle_spec(e, rolls@[off + j]))));
                assert forall|j: int| 0 <= j < out@.len() implies #[trigger] out@[j].wf() by {
                    if j < prev.len() {
                        assert(out@[j] == prev[j]);
                    }
                }
            }
            k = k + 1;
        }
        off = off + e.count as usize;
        i = i + 1;
    }
    out
}

/// Number of live particles.
pub fn live_particle_count(world: &World) -> (r: usize)
    ensures
        r == live_particles(world@.slots),
{
    let slots = world.slots();
    let ghost f = particle_fn();
    let mut n: usize = 0;
    let mut i: usize = 0;
    while i < slots.len()
        invariant
            slots@ == world@.slots,
            f == particle_fn(),
            i <= slots@.len(),
            n == slots@.take(i as int).filter_map(f).len(),
            n <= i,
        decreases slots@.len() - i,
    {
        proof {
            slots@.lemma_filter_map_take_succ(f, i as int);
            assert(f(slots@[i as int]) == particle_entity(slots@[i as int]));
        }
        if slots[i].parts.particle.is_some() {
            n = n + 1;
        }
        i = i + 1;
    }
    proof {
        assert(slots@.take(slots@.len() as int) == slots@);
    }
    n
}

/// How many more particles the pool admits.
pub fn room_for_particles(world: &World) -> (r: usize)
    ensures
        r == particle_room(world@.slots),
{
    let live = live_particle_count(world);
    if live < PARTICLE_LIMIT { PARTICLE_LIMIT - live } else { 0 }
}

/// Keeps the first `room` of `cmds`.
pub fn keep_within_pool(cmds: &mut Vec<Command>, room: usize)
    requires
        commands_wf(old(cmds)@),
    ensures
        final(cmds)@ == within_pool(old(cmds)@, room as nat),
        commands_wf(final(cmds)@),
{
    if cmds.len() > room {
        cmds.truncate(room);
        assert(cmds@ == old(cmds)@.take(room as int));
    }
}

} // verus!

//! The simulation: systems run once per tick in the order the scheduler
//! fixed at startup, with the state machine's enter and exit hooks between
//! ticks.
use vstd::prelude::*;
use crate::collision::{
    CollisionEvent, ProjectileCollisionEvent, collision_detection, projectile_collision, player_in,
    collision_events, projectile_events, find_player,
};
use crate::combat::{
    any_deadly, deadly_contact, player_commands, player_scores, projectile_commands,
    projectile_scores, escape_command_fn, escape_score_fn, player_collision_outcome, projectile_outcome, boundary_sweep, collision_events_wf,
    projectile_events_wf,
};
use crate::components::Components;
use crate::random::draw_rolls;
use crate::particles::{
    particles_due, particle_commands, room_for_particles, keep_within_pool, rolls_before,
    emission_commands, within_pool, particle_room,
};
use crate::schedule::{
    Constraint, ScheduleError, schedule, valid_schedule, occurs, respects, schedulable, is_order,
    constraints_known,
};
use crate::score::{Score, ScoreEvent, stepped_all};
use crate::spawner::{
    PlayArea, bird_spec, bird_height_spec, bird_speed_spec, bird_kill_size_spec, bird_interval_spec,
    tree_spec, tree_interval_spec, cloud_spec, cloud_interval_spec, player_spec, out_of_bounds_spec, make_bird, make_tree, make_cloud, make_player, bird_interval, tree_interval,
    cloud_interval, out_of_bounds,
};
use crate::state::{GameState, next_state, next_state_spec};
use crate::timer::{Timer, TimerMode, tick_spec};
use crate::world::{
    World, WorldView, SlotOp, Emission, Command, command_spec, commands_spec, emitter_fn, emission_fn,
};

verus! {

/// Number of registered systems.
pub const SYSTEM_COUNT: usize = 20;

/// Nanoseconds before the first obstacle of each kind in a session.
pub const FIRST_SPAWN_NS: u64 = 1_000_000_000;

/// The registered systems, numbered in declaration order.
#[derive(Clone, Copy, Debug, PartialEq, Eq, Structural)]
pub enum SystemId {
    AdvanceTime,
    SpawnBirds,
    SpawnTrees,
    SpawnClouds,
    Gravity,
    FaceMovement,
    Jump,
    Movement,
    AttackState,
    OutOfBounds,
    Collision,
    Projectiles,
    PlayerCombat,
    ProjectileCombat,
    Boundary,
    ScoreEvents,
    GameOver,
    StartGame,
    Cleanup,
    EmitParticles,
}

pub open spec fn system_spec(i: int) -> SystemId {
    if i == 0 { SystemId::AdvanceTime }
    else if i == 1 { SystemId::SpawnBirds }
    else if i == 2 { SystemId::SpawnTrees }
    else if i == 3 { SystemId::SpawnClouds }
    else if i == 4 { SystemId::Gravity }
    else if i == 5 { SystemId::FaceMovement }
    else if i == 6 { SystemId::Jump }
    else if i == 7 { SystemId::Movement }
    else if i == 8 { SystemId::AttackState }
    else if i == 9 { SystemId::OutOfBounds }
    else if i == 10 { SystemId::Collision }
    else if i == 11 { SystemId::Projectiles }
    else if i == 12 { SystemId::PlayerCombat }
    else if i == 13 { SystemId::ProjectileCombat }
    else if i == 14 { SystemId::Boundary }
    else if i == 15 { SystemId::ScoreEvents }
    else if i == 16 { SystemId::GameOver }
    else if i == 17 { SystemId::StartGame }
    else if i == 18 { SystemId::Cleanup }
    else { SystemId::EmitParticles }
}

/// The system registered under number `i`.
pub fn system_at(i: usize) -> (r: SystemId)
    ensures
        r == system_spec(i as int),
{
    if i == 0 { SystemId::AdvanceTime }
    else if i == 1 { SystemId::SpawnBirds }
    else if i == 2 { SystemId::SpawnTrees }
    else if i == 3 { SystemId::SpawnClouds }
    else if i == 4 { SystemId::Gravity }
    else if i == 5 { SystemId::FaceMovement }
    else if i == 6 { SystemId::Jump }
    else if i == 7 { SystemId::Movement }
    else if i == 8 { SystemId::AttackState }
    else if i == 9 { SystemId::OutOfBounds }
    else if i == 10 { SystemId::Collision }
    else if i == 11 { SystemId::Projectiles }
    else if i == 12 { SystemId::PlayerCombat }
    else if i == 13 { SystemId::ProjectileCombat }
    else if i == 14 { SystemId::Boundary }
    else if i == 15 { SystemId::ScoreEvents }
    else if i == 16 { SystemId::GameOver }
    else if i == 17 { SystemId::StartGame }
    else if i == 18 { SystemId::Cleanup }
    else { SystemId::EmitParticles }
}

pub open spec fn ordered_pairs() -> Seq<Constraint> {
    seq![
        Constraint { before: 4, after: 7 },
        Constraint { before: 4, after: 5 },
        Constraint { before: 4, after: 6 },
        Constraint { before: 6, after: 7 },
        Constraint { before: 7, after: 10 },
        Constraint { before: 7, after: 11 },
        Constraint { before: 8, after: 10 },
        Constraint { before: 7, after: 9 },
        Constraint { before: 10, after: 12 },
        Constraint { before: 12, after: 16 },
        Constraint { before: 11, after: 13 },
        Constraint { before: 10, after: 16 },
        Constraint { before: 9, after: 16 },
        Constraint { before: 12, after: 15 },
        Constraint { before: 13, after: 15 },
        Constraint { before: 14, after: 15 },
        Constraint { before: 7, after: 19 },
        Constraint { before: 19, after: 18 },
    ]
}

/// Every system numbered below cleanup runs before cleanup.
pub open spec fn cleanup_last(n: int) -> Seq<Constraint> {
    Seq::new(n as nat, |i: int| Constraint { before: i as usize, after: 18 })
}

/// The ordering constraints between the systems.
pub open spec fn system_constraints_spec() -> Seq<Constraint> {
    ordered_pairs() + cleanup_last(18)
}

/// The ordering constraints between the systems: gravity, then movement,
/// then collision and projectiles, then combat and game over, and cleanup
/// after everything else.
pub fn system_constraints() -> (r: Vec<Constraint>)
    ensures
        r@ == system_constraints_spec(),
{
    let mut r: Vec<Constraint> = Vec::new();
    r.push(Constraint { before: 4, after: 7 });
    r.push(Constraint { before: 4, after: 5 });
    r.push(Constraint { before: 4, after: 6 });
    r.push(Constraint { before: 6, after: 7 });
    r.push(Constraint { before: 7, after: 10 });
    r.push(Constraint { before: 7, after: 11 });
    r.push(Constraint { before: 8, after: 10 });
    r.push(Constraint { before: 7, after: 9 });
    r.push(Constraint { before: 10, after: 12 });
    r.push(Constraint { before: 12, after: 16 });
    r.push(Constraint { before: 11, after: 13 });
    r.push(Constraint { before: 10, after: 16 });
    r.push(Constraint { before: 9, after: 16 });
    r.push(Constraint { before: 12, after: 15 });
    r.push(Constraint { before: 13, after: 15 });
    r.push(Constraint { before: 14, after: 15 });
    r.push(Constraint { before: 7, after: 19 });
    r.push(Constraint { before: 19, after: 18 });
    assert(r@ == ordered_pairs());
    let mut i: usize = 0;
    while i < 18
        invariant
            i <= 18,
            r@ == ordered_pairs() + cleanup_last(i as int),
        decreases 18 - i,
    {
        r.push(Constraint { before: i, after: 18 });
        i = i + 1;
        assert(r@ == ordered_pairs() + cleanup_last(i as int));
    }
    r
}

/// What one tick read and produced; cleared at every tick.
pub struct TickEvents {
    pub collisions: Vec<CollisionEvent>,
    pub projectile_hits: Vec<ProjectileCollisionEvent>,
    pub score_events: Vec<ScoreEvent>,
    pub emissions: Vec<Emission>,
    /// A game over was raised.
    pub game_over: bool,
    /// The player's sprite reached past the top or bottom of the play area.
    pub left_area: bool,
    /// The session ends at the end of this tick.
    pub end_requested: bool,
    /// A session starts at the end of this tick.
    pub start_requested: bool,
}

impl TickEvents {
    pub open spec fn wf(&self) -> bool {
        collision_events_wf(self.collisions@) && projectile_events_wf(self.projectile_hits@)
            && (self.end_requested ==> self.game_over)
    }
}

/// Time since the current session began.
#[derive(Clone, Copy, Debug, PartialEq, Eq, Structural)]
pub struct ElapsedTime {
    pub time_us: u64,
}

/// The inputs of one tick.
#[derive(Clone, Copy, Debug, PartialEq, Eq, Structural)]
pub struct TickInput {
    /// Length of the tick in microseconds.
    pub dt_us: u32,
    /// Jump (and swing) pressed this tick.
    pub jump: bool,
    /// Confirm pressed this tick.
    pub confirm: bool,
}

/// The whole simulation context.
pub struct Game {
    pub world: World,
    pub score: Score,
    pub elapsed: ElapsedTime,
    pub state: GameState,
    pub area: PlayArea,
    pub bird_timer: Timer,
    pub tree_timer: Timer,
    pub cloud_timer: Timer,
    /// The per-tick order of the systems.
    pub order: Vec<usize>,
}

/// `elapsed_us` advanced by `dt_us`, saturating.
pub open spec fn advanced(elapsed_us: u64, dt_us: u32) -> u64 {
    if elapsed_us + dt_us > u64::MAX { u64::MAX } else { (elapsed_us + dt_us) as u64 }
}

/// Whether system `v` is among the first `i` entries of `order`.
pub open spec fn ran(order: Seq<usize>, i: int, v: int) -> bool {
    exists|k: int| 0 <= k < i && #[trigger] order[k] == v
}

/// The game's systems in declaration order, with particle emission moved
/// before cleanup.
pub open spec fn witness_order() -> Seq<usize> {
    Seq::new(20, |i: int| if i < 18 { i as usize } else if i == 18 { 19usize } else { 18usize })
}

/// Where system `v` stands in `witness_order`.
pub open spec fn witness_pos(v: int) -> int {
    if v < 18 { v } else if v == 19 { 18 } else { 19 }
}

/// The game's ordering constraints can all be met.
pub proof fn lemma_game_constraints_schedulable()
    ensures
        schedulable(SYSTEM_COUNT as int, system_constraints_spec()),
        constraints_known(SYSTEM_COUNT as int, system_constraints_spec()),
{
    let w = witness_order();
    let cons = system_constraints_spec();
    let pairs = ordered_pairs();
    assert forall|i: int| 0 <= i < w.len() implies #[trigger] w[i] < SYSTEM_COUNT && witness_pos(w[i] as int) == i by {}
    assert forall|v: int| 0 <= v < SYSTEM_COUNT implies #[trigger] occurs(w, v) by {
        assert(w[witness_pos(v)] == v);
    }
    assert(w.no_duplicates()) by {
        assert forall|i: int, j: int| 0 <= i < w.len() && 0 <= j < w.len() && i != j implies w[i] != w[j] by {
            assert(witness_pos(w[i] as int) == i && witness_pos(w[j] as int) == j);
        }
    }
    assert forall|k: int| 0 <= k < cons.len() implies witness_pos((#[trigger] cons[k]).before as int) < witness_pos(cons[k].after as int)
        && cons[k].before < SYSTEM_COUNT && cons[k].after < SYSTEM_COUNT by {
        if k < pairs.len() {
            assert(cons[k] == pairs[k]);
        } else {
            assert(cons[k] == cleanup_last(18)[k - pairs.len()]);
        }
    }
    assert(is_order(w, SYSTEM_COUNT as int));
    assert(respects(w, cons)) by {
        assert forall|k: int, i: int, j: int|
            0 <= k < cons.len() && 0 <= i < w.len() && 0 <= j < w.len() && #[trigger] w[i] == cons[k].before
                && #[trigger] w[j] == (#[trigger] cons[k]).after implies i < j by {
            assert(witness_pos(w[i] as int) == i && witness_pos(w[j] as int) == j);
        }
    }
    assert(valid_schedule(w, SYSTEM_COUNT as int, cons));
}

/// The game's data and one tick's events, as mathematical values.
pub struct Snapshot {
    pub world: WorldView,
    pub score: Score,
    pub elapsed_us: u64,
    pub bird_timer: Timer,
    pub tree_timer: Timer,
    pub cloud_timer: Timer,
    pub collisions: Seq<CollisionEvent>,
    pub projectile_hits: Seq<ProjectileCollisionEvent>,
    pub score_events: Seq<ScoreEvent>,
    pub emissions: Seq<Emission>,
    pub game_over: bool,
    pub left_area: bool,
    pub end_requested: bool,
    pub start_requested: bool,
}

pub open spec fn snap(g: Game, ev: TickEvents) -> Snapshot {
    Snapshot {
        world: g.world@,
        score: g.score,
        elapsed_us: g.elapsed.time_us,
        bird_timer: g.bird_timer,
        tree_timer: g.tree_timer,
        cloud_timer: g.cloud_timer,
        collisions: ev.collisions@,
        projectile_hits: ev.projectile_hits@,
        score_events: ev.score_events@,
        emissions: ev.emissions@,
        game_over: ev.game_over,
        left_area: ev.left_area,
        end_requested: ev.end_requested,
        start_requested: ev.start_requested,
    }
}

/// The game's data before a tick, with no events yet.
pub open spec fn fresh(g: Game) -> Snapshot {
    Snapshot {
        collisions: Seq::empty(),
        projectile_hits: Seq::empty(),
        score_events: Seq::empty(),
        emissions: Seq::empty(),
        game_over: false,
        left_area: false,
        end_requested: false,
        start_requested: false,
        ..snap(g, arbitrary())
    }
}

pub open spec fn updated(a: Snapshot, op: SlotOp) -> Snapshot {
    Snapshot { world: command_spec(a.world, Command::Update(op)), ..a }
}

pub open spec fn restarted(t: Timer, duration_ns: int) -> Timer {
    Timer { duration_ns: duration_ns as u64, elapsed_ns: 0, ..t }
}

/// Whether the player's sprite reaches past the top or bottom of `area`.
pub open spec fn player_out(area: PlayArea, w: WorldView) -> bool {
    match find_player(w.slots) {
        Some(pl) => out_of_bounds_spec(area, pl.pos.y as int),
        None => false,
    }
}

/// A bird spawned with rolls `r0` (interval), `r1` (height), `r2` (speed).
pub open spec fn bird_spawned(a: Snapshot, b: Snapshot, area: PlayArea, t: Timer, r0: u32, r1: u32, r2: u32) -> bool {
    b == Snapshot {
        bird_timer: restarted(t, bird_interval_spec(a.score.score as int, r0)),
        world: command_spec(
            a.world,
            Command::Spawn(
                bird_spec(
                    area,
                    bird_height_spec(area, r1) as i64,
                    bird_speed_spec(a.score.current_combo as int, r2) as i64,
                    bird_kill_size_spec(a.elapsed_us as int) as i64,
                ),
            ),
        ),
        ..a
    }
}

pub open spec fn tree_spawned(a: Snapshot, b: Snapshot, area: PlayArea, t: Timer, r0: u32) -> bool {
    b == Snapshot {
        tree_timer: restarted(t, tree_interval_spec(r0)),
        world: command_spec(a.world, Command::Spawn(tree_spec(area))),
        ..a
    }
}

pub open spec fn cloud_spawned(a: Snapshot, b: Snapshot, area: PlayArea, t: Timer, r0: u32, r1: u32) -> bool {
    b == Snapshot {
        cloud_timer: restarted(t, cloud_interval_spec(r0)),
        world: command_spec(a.world, Command::Spawn(cloud_spec(area, r1))),
        ..a
    }
}

/// The player's collisions resolved with `rolls`.
pub open spec fn player_resolved(a: Snapshot, b: Snapshot, rolls: Seq<u32>) -> bool {
    let n = a.collisions.len();
    let cmds = player_commands(a.collisions, rolls, n);
    &&& rolls.len() == 2 * n
    &&& b == Snapshot {
        world: commands_spec(a.world, cmds, cmds.len()),
        score_events: a.score_events + player_scores(a.collisions, n),
        game_over: a.game_over || deadly_contact(a.collisions),
        ..a
    }
}

/// The projectile hits resolved with `rolls`.
pub open spec fn projectiles_resolved(a: Snapshot, b: Snapshot, rolls: Seq<u32>) -> bool {
    let n = a.projectile_hits.len();
    let cmds = projectile_commands(a.projectile_hits, rolls, n);
    &&& rolls.len() == 2 * n
    &&& b == Snapshot {
        world: commands_spec(a.world, cmds, cmds.len()),
        score_events: a.score_events + projectile_scores(a.projectile_hits, n),
        ..a
    }
}

/// The particles of the emissions `es` spawned with `rolls`, as many as the
/// pool admits.
pub open spec fn particles_spawned(base: Snapshot, b: Snapshot, es: Seq<Emission>, rolls: Seq<u32>) -> bool {
    let cmds = within_pool(emission_commands(es, rolls, es.len()), particle_room(base.world.slots));
    &&& rolls.len() == rolls_before(es, es.len())
    &&& b == Snapshot { world: commands_spec(base.world, cmds, cmds.len()), ..base }
}

/// What system `sys` does in state `state`: `a` before it runs, `b` after.
/// Where random rolls enter, some rolls give `b`.
pub open spec fn step_spec(sys: SystemId, state: GameState, area: PlayArea, input: TickInput, a: Snapshot, b: Snapshot) -> bool {
    let playing = state == GameState::Playing;
    let dt = input.dt_us;
    let dt_ns = (dt * 1000) as u64;
    match sys {
        SystemId::AdvanceTime => b == Snapshot {
            elapsed_us: if playing { advanced(a.elapsed_us, dt) } else { a.elapsed_us },
            ..a
        },
        SystemId::SpawnBirds => {
            let t = tick_spec(a.bird_timer, dt_ns as int);
            if !playing {
                b == a
            } else if !t.just_finished {
                b == Snapshot { bird_timer: t, ..a }
            } else {
                exists|r0: u32, r1: u32, r2: u32| #[trigger] bird_spawned(a, b, area, t, r0, r1, r2)
            }
        },
        SystemId::SpawnTrees => {
            let t = tick_spec(a.tree_timer, dt_ns as int);
            if !t.just_finished {
                b == Snapshot { tree_timer: t, ..a }
            } else {
                exists|r0: u32| #[trigger] tree_spawned(a, b, area, t, r0)
            }
        },
        SystemId::SpawnClouds => {
            let t = tick_spec(a.cloud_timer, dt_ns as int);
            if !t.just_finished {
                b == Snapshot { cloud_timer: t, ..a }
            } else {
                exists|r0: u32, r1: u32| #[trigger] cloud_spawned(a, b, area, t, r0, r1)
            }
        },
        SystemId::Gravity => b == updated(a, SlotOp::ApplyGravity(dt)),
        SystemId::FaceMovement => b == updated(a, SlotOp::FaceMovement),
        SystemId::Jump => b == if playing && input.jump { updated(a, SlotOp::Jump) } else { a },
        SystemId::Movement => b == updated(a, SlotOp::Move(dt)),
        SystemId::AttackState => b == if playing { updated(a, SlotOp::UpdateAttack) } else { a },
        SystemId::OutOfBounds => {
            let out = playing && player_out(area, a.world);
            b == Snapshot { left_area: a.left_area || out, game_over: a.game_over || out, ..a }
        },
        SystemId::Collision => b == Snapshot { collisions: collision_events(a.world.slots), ..a },
        SystemId::Projectiles => b == Snapshot { projectile_hits: projectile_events(a.world.slots), ..a },
        SystemId::PlayerCombat => if a.collisions.len() <= usize::MAX / 2 {
            exists|rolls: Seq<u32>| #[trigger] player_resolved(a, b, rolls)
        } else {
            b == Snapshot { game_over: a.game_over || deadly_contact(a.collisions), ..a }
        },
        SystemId::ProjectileCombat => if a.projectile_hits.len() <= usize::MAX / 2 {
            exists|rolls: Seq<u32>| #[trigger] projectiles_resolved(a, b, rolls)
        } else {
            b == a
        },
        SystemId::Boundary => {
            let cmds = a.world.slots.filter_map(escape_command_fn(area));
            b == Snapshot {
                world: commands_spec(a.world, cmds, cmds.len()),
                score_events: a.score_events + a.world.slots.filter_map(escape_score_fn(area)),
                ..a
            }
        },
        SystemId::ScoreEvents => b == Snapshot {
            score: if playing { stepped_all(a.score, a.score_events, a.score_events.len()) } else { a.score },
            ..a
        },
        SystemId::GameOver => b == Snapshot { end_requested: a.end_requested || (playing && a.game_over), ..a },
        SystemId::StartGame => b == Snapshot { start_requested: a.start_requested || (!playing && input.confirm), ..a },
        SystemId::Cleanup => b == updated(a, SlotOp::CleanDead(dt)),
        SystemId::EmitParticles => {
            let es = a.world.slots.filter_map(emission_fn(dt_ns));
            let base = Snapshot {
                world: WorldView { slots: a.world.slots.filter_map(emitter_fn(dt_ns)), next_id: a.world.next_id },
                emissions: a.emissions + es,
                ..a
            };
            if rolls_before(es, es.len()) <= usize::MAX {
                exists|rolls: Seq<u32>| #[trigger] particles_spawned(base, b, es, rolls)
            } else {
                b == base
            }
        },
    }
}

/// The world after leaving `from` for `to`: the exit hook of the one, then
/// the enter hook of the other.
pub open spec fn transition_world(w: WorldView, from: GameState, to: GameState, area: PlayArea) -> WorldView {
    let left = match from {
        GameState::Playing => command_spec(w, Command::Update(SlotOp::KillPlayer)),
        GameState::End => command_spec(w, Command::Update(SlotOp::ClearCorpse)),
        GameState::MainMenu => w,
    };
    match to {
        GameState::Playing => command_spec(left, Command::Spawn(player_spec(area))),
        GameState::End => command_spec(left, Command::Update(SlotOp::EndSession)),
        GameState::MainMenu => left,
    }
}

/// `s` after the state changes from `from` to `to` (nothing when they are equal).
pub open spec fn settled(s: Snapshot, from: GameState, to: GameState, area: PlayArea) -> Snapshot {
    if from == to {
        s
    } else if to == GameState::Playing {
        Snapshot {
            world: transition_world(s.world, from, to, area),
            score: Score { score: 0, current_combo: 0, max_combo: 0 },
            elapsed_us: 0,
            bird_timer: Timer::new_spec(FIRST_SPAWN_NS),
            tree_timer: Timer::new_spec(FIRST_SPAWN_NS),
            cloud_timer: Timer::new_spec(FIRST_SPAWN_NS),
            ..s
        }
    } else {
        Snapshot { world: transition_world(s.world, from, to, area), ..s }
    }
}

/// Step `j` of `trace` is what system `order[j]` does.
pub open spec fn step_at(order: Seq<usize>, state: GameState, area: PlayArea, input: TickInput, trace: Seq<Snapshot>, j: int) -> bool {
    step_spec(system_spec(order[j] as int), state, area, input, trace[j], trace[j + 1])
}

/// `trace` runs every system of `order` once, in turn, starting from `start`.
pub open spec fn tick_trace(order: Seq<usize>, state: GameState, area: PlayArea, input: TickInput, start: Snapshot, trace: Seq<Snapshot>) -> bool {
    &&& trace.len() == order.len() + 1
    &&& trace[0] == start
    &&& forall|j: int| 0 <= j < order.len() ==> #[trigger] step_at(order, state, area, input, trace, j)
}

proof fn lemma_system_ids(k: int)
    requires
        0 <= k < SYSTEM_COUNT,
    ensures
        (system_spec(k) == SystemId::AdvanceTime) == (k == 0),
        (system_spec(k) == SystemId::OutOfBounds) == (k == 9),
        (system_spec(k) == SystemId::Collision) == (k == 10),
        (system_spec(k) == SystemId::PlayerCombat) == (k == 12),
        (system_spec(k) == SystemId::ProjectileCombat) == (k == 13),
        (system_spec(k) == SystemId::Boundary) == (k == 14),
        (system_spec(k) == SystemId::ScoreEvents) == (k == 15),
        (system_spec(k) == SystemId::GameOver) == (k == 16),
        (system_spec(k) == SystemId::StartGame) == (k == 17),
{
}

/// What running entry `i` of a valid game order adds to the systems run so
/// far, and which systems are sure to have run before it.
proof fn lemma_tick_order_step(order: Seq<usize>, i: int)
    requires
        0 <= i < order.len(),
        order.len() == SYSTEM_COUNT,
        order.no_duplicates(),
        respects(order, system_constraints_spec()),
        forall|v: int| 0 <= v < SYSTEM_COUNT ==> #[trigger] occurs(order, v),
    ensures
        forall|v: int| #[trigger] ran(order, i + 1, v) == (ran(order, i, v) || order[i] == v),
        order[i] == 0 ==> !ran(order, i, 0),
        order[i] == 17 ==> !ran(order, i, 17),
        order[i] == 15 ==> !ran(order, i, 15) && ran(order, i, 12) && ran(order, i, 13) && ran(order, i, 14),
        order[i] == 16 ==> !ran(order, i, 16) && ran(order, i, 9) && ran(order, i, 12),
        order[i] == 12 ==> !ran(order, i, 12) && ran(order, i, 10),
        ran(order, i, order[i] as int) == false,
{
    assert forall|v: int| #[trigger] ran(order, i + 1, v) == (ran(order, i, v) || order[i] == v) by {
        lemma_ran_step(order, i, v);
    }
    if ran(order, i, order[i] as int) {
        let j = choose|j: int| 0 <= j < i && #[trigger] order[j] == order[i] as int;
        assert(order[j] == order[i]);
    }
    let k = order[i] as int;
    if k == 15 {
        lemma_runs_before(order, i, 12, 13);
        lemma_runs_before(order, i, 13, 14);
        lemma_runs_before(order, i, 14, 15);
    }
    if k == 16 {
        lemma_runs_before(order, i, 9, 12);
        lemma_runs_before(order, i, 12, 9);
    }
    if k == 12 {
        lemma_runs_before(order, i, 10, 8);
    }
}

proof fn lemma_ran_step(order: Seq<usize>, i: int, v: int)
    requires
        0 <= i < order.len(),
    ensures
        ran(order, i + 1, v) == (ran(order, i, v) || order[i] == v),
{
    if order[i] == v {
        assert(order[i] == v);
    }
    if ran(order, i + 1, v) && order[i] != v {
        let j = choose|j: int| 0 <= j < i + 1 && #[trigger] order[j] == v;
        assert(j < i);
    }
}

/// In the game's system order, system `a` has run by the time `b`, which
/// the `k`-th ordering constraint puts after it, is reached.
proof fn lemma_runs_before(order: Seq<usize>, i: int, a: int, k: int)
    requires
        0 <= i < order.len(),
        order.len() == SYSTEM_COUNT,
        respects(order, system_constraints_spec()),
        forall|v: int| 0 <= v < SYSTEM_COUNT ==> #[trigger] occurs(order, v),
        0 <= k < ordered_pairs().len(),
        ordered_pairs()[k].before == a,
        order[i] == ordered_pairs()[k].after,
    ensures
        ran(order, i, a),
{
    let cons = system_constraints_spec();
    assert(cons[k] == ordered_pairs()[k]);
    assert(occurs(order, a));
    let p = choose|p: int| 0 <= p < order.len() && #[trigger] order[p] == a;
    assert(order[p] == cons[k].before && order[i] == cons[k].after);
    assert(p < i);
}

impl Game {
    pub open spec fn wf(&self) -> bool {
        &&& self.world.wf()
        &&& self.score.wf()
        &&& self.area.wf()
        &&& self.bird_timer.wf()
        &&& self.tree_timer.wf()
        &&& self.cloud_timer.wf()
        &&& self.order@.len() == SYSTEM_COUNT
        &&& self.order@.no_duplicates()
        &&& forall|i: int| 0 <= i < self.order@.len() ==> #[trigger] self.order@[i] < SYSTEM_COUNT
        &&& forall|v: int| 0 <= v < SYSTEM_COUNT ==> #[trigger] occurs(self.order@, v)
        &&& respects(self.order@, system_constraints_spec())
    }

    /// A game at the main menu over `area`, with its system order resolved.
    /// The result is an error only for a cyclic constraint table, which the
    /// game's own table is not.
    pub fn new(area: PlayArea) -> (r: Result<Game, ScheduleError>)
        requires
            area.wf(),
        ensures
            r is Ok,
            r matches Ok(g) ==> {
                &&& g.wf()
                &&& g.state == GameState::MainMenu
                &&& g.world@.slots.len() == 0
                &&& g.score == (Score { score: 0, current_combo: 0, max_combo: 0 })
                &&& g.elapsed.time_us == 0
                &&& g.area == area
                &&& valid_schedule(g.order@, SYSTEM_COUNT as int, system_constraints_spec())
            },
    {
        let cons = system_constraints();
        proof {
            lemma_game_constraints_schedulable();
        }
        match schedule(SYSTEM_COUNT, &cons) {
            Ok(order) => Ok(Game {
                world: World::new(),
                score: Score::new(),
                elapsed: ElapsedTime { time_us: 0 },
                state: GameState::MainMenu,
                area,
                bird_timer: Timer::new(FIRST_SPAWN_NS, TimerMode::Once),
                tree_timer: Timer::new(FIRST_SPAWN_NS, TimerMode::Once),
                cloud_timer: Timer::new(FIRST_SPAWN_NS, TimerMode::Once),
                order,
            }),
            Err(e) => Err(e),
        }
    }

    /// Runs one system for one tick.
    #[verifier::rlimit(100)]
    #[verifier::spinoff_prover]
    fn run_system(&mut self, sys: SystemId, input: TickInput, ev: &mut TickEvents)
        requires
            old(self).wf(),
            old(ev).wf(),
        ensures
            final(self).wf(),
            final(ev).wf(),
            final(self).state == old(self).state,
            final(self).area == old(self).area,
            final(self).order@ == old(self).order@,
            final(self).elapsed.time_us == (if sys == SystemId::AdvanceTime && old(self).state == GameState::Playing {
                advanced(old(self).elapsed.time_us, input.dt_us)
            } else {
                old(self).elapsed.time_us
            }),
            final(ev).start_requested == (old(ev).start_requested || (sys == SystemId::StartGame
                && old(self).state != GameState::Playing && input.confirm)),
            final(ev).end_requested == (old(ev).end_requested || (sys == SystemId::GameOver
                && old(self).state == GameState::Playing && old(ev).game_over)),
            final(ev).left_area == (old(ev).left_area || (sys == SystemId::OutOfBounds
                && old(self).state == GameState::Playing && player_out(old(self).area, old(self).world@))),
            final(ev).game_over == (old(ev).game_over || (sys == SystemId::OutOfBounds
                && old(self).state == GameState::Playing && player_out(old(self).area, old(self).world@))
                || (sys == SystemId::PlayerCombat && deadly_contact(old(ev).collisions@))),
            final(ev).collisions@ == (if sys == SystemId::Collision {
                collision_events(old(self).world@.slots)
            } else {
                old(ev).collisions@
            }),
            step_spec(sys, old(self).state, old(self).area, input, snap(*old(self), *old(ev)), snap(*final(self), *final(ev))),
            final(self).score == (if sys == SystemId::ScoreEvents && old(self).state == GameState::Playing {
                stepped_all(old(self).score, old(ev).score_events@, old(ev).score_events@.len())
            } else {
                old(self).score
            }),
            (sys != SystemId::PlayerCombat && sys != SystemId::ProjectileCombat && sys != SystemId::Boundary)
                ==> final(ev).score_events@ == old(ev).score_events@,
    {
        let ghost a = snap(*self, *ev);
        let dt = input.dt_us;
        let dt_ns: u64 = dt as u64 * 1000;
        let playing = match self.state {
            GameState::Playing => true,
            _ => false,
        };
        match sys {
            SystemId::AdvanceTime => {
                if playing {
                    let t: u64 = if self.elapsed.time_us > u64::MAX - dt as u64 {
                        u64::MAX
                    } else {
                        self.elapsed.time_us + dt as u64
                    };
                    self.elapsed = ElapsedTime { time_us: t };
                }
            },
            SystemId::SpawnBirds => {
                if playing && self.bird_timer.tick(dt_ns) {
                    let rolls = draw_rolls(3);
                    self.bird_timer.restart(bird_interval(self.score.score, rolls[0]));
                    let bird = make_bird(self.area, self.score.current_combo, self.elapsed.time_us, rolls[1], rolls[2]);
                    let _ = self.world.spawn(bird);
                    proof {
                        assert(bird_spawned(a, snap(*self, *ev), self.area, tick_spec(a.bird_timer, dt_ns as int), rolls@[0], rolls@[1], rolls@[2]));
                    }
                }
            },
            SystemId::SpawnTrees => {
                if self.tree_timer.tick(dt_ns) {
                    let rolls = draw_rolls(1);
                    self.tree_timer.restart(tree_interval(rolls[0]));
                    let tree = make_tree(self.area);
                    let _ = self.world.spawn(tree);
                    proof {
                        assert(tree_spawned(a, snap(*self, *ev), self.area, tick_spec(a.tree_timer, dt_ns as int), rolls@[0]));
                    }
                }
            },
            SystemId::SpawnClouds => {
                if self.cloud_timer.tick(dt_ns) {
                    let rolls = draw_rolls(2);
                    self.cloud_timer.restart(cloud_interval(rolls[0]));
                    let cloud = make_cloud(self.area, rolls[1]);
                    let _ = self.world.spawn(cloud);
                    proof {
                        assert(cloud_spawned(a, snap(*self, *ev), self.area, tick_spec(a.cloud_timer, dt_ns as int), rolls@[0], rolls@[1]));
                    }
                }
            },
            SystemId::Gravity => self.world.run_op(SlotOp::ApplyGravity(dt)),
            SystemId::FaceMovement => self.world.run_op(SlotOp::FaceMovement),
            SystemId::Jump => {
                if playing && input.jump {
                    self.world.run_op(SlotOp::Jump);
                }
            },
            SystemId::Movement => self.world.run_op(SlotOp::Move(dt)),
            SystemId::AttackState => {
                if playing {
                    self.world.run_op(SlotOp::UpdateAttack);
                }
            },
            SystemId::OutOfBounds => {
                if playing {
                    match player_in(&self.world) {
                        Some(pl) => {
                            if out_of_bounds(self.area, pl.pos.y) {
                                ev.left_area = true;
                                ev.game_over = true;
                            }
                        },
                        None => {},
                    }
                }
            },
            SystemId::Collision => {
                ev.collisions = collision_detection(&self.world);
            },
            SystemId::Projectiles => {
                ev.projectile_hits = projectile_collision(&self.world);
            },
            SystemId::PlayerCombat => {
                let n = ev.collisions.len();
                if any_deadly(&ev.collisions) {
                    ev.game_over = true;
                }
                if n <= usize::MAX / 2 {
                    let rolls = draw_rolls(2 * n);
                    let mut outcome = player_collision_outcome(&ev.collisions, &rolls);
                    self.world.apply_commands(&outcome.commands);
                    ev.score_events.append(&mut outcome.score_events);
                    proof {
                        assert(player_resolved(snap(*old(self), *old(ev)), snap(*self, *ev), rolls@));
                    }
                }
            },
            SystemId::ProjectileCombat => {
                let n = ev.projectile_hits.len();
                if n <= usize::MAX / 2 {
                    let rolls = draw_rolls(2 * n);
                    let mut outcome = projectile_outcome(&ev.projectile_hits, &rolls);
                    self.world.apply_commands(&outcome.commands);
                    ev.score_events.append(&mut outcome.score_events);
                    proof {
                        assert(projectiles_resolved(a, snap(*self, *ev), rolls@));
                    }
                }
            },
            SystemId::Boundary => {
                let (cmds, mut resets) = boundary_sweep(&self.world, self.area);
                self.world.apply_commands(&cmds);
                ev.score_events.append(&mut resets);
            },
            SystemId::ScoreEvents => {
                if playing {
                    self.score.apply_events(&ev.score_events);
                }
            },
            SystemId::GameOver => {
                if playing && ev.game_over {
                    ev.end_requested = true;
                }
            },
            SystemId::StartGame => {
                if !playing && input.confirm {
                    ev.start_requested = true;
                }
            },
            SystemId::Cleanup => self.world.run_op(SlotOp::CleanDead(dt)),
            SystemId::EmitParticles => {
                let mut emitted = self.world.tick_emitters(dt_ns);
                match particles_due(&emitted) {
                    Some(n) => {
                        let rolls = draw_rolls(n);
                        let mut cmds = particle_commands(&emitted, &rolls);
                        let room = room_for_particles(&self.world);
                        keep_within_pool(&mut cmds, room);
                        let ghost es = emitted@;
                        let ghost base = Snapshot { emissions: ev.emissions@ + emitted@, ..snap(*self, *ev) };
                        self.world.apply_commands(&cmds);
                        ev.emissions.append(&mut emitted);
                        proof {
                            assert(particles_spawned(base, snap(*self, *ev), es, rolls@));
                        }
                    },
                    None => {
                        ev.emissions.append(&mut emitted);
                    },
                }
            },
        }
        proof {
            match sys {
                SystemId::AdvanceTime => {
                    assert(step_spec(sys, old(self).state, old(self).area, input, a, snap(*self, *ev)));
                },
                SystemId::SpawnBirds => {
                    assert(step_spec(sys, old(self).state, old(self).area, input, a, snap(*self, *ev)));
                },
                SystemId::SpawnTrees => {
                    assert(step_spec(sys, old(self).state, old(self).area, input, a, snap(*self, *ev)));
                },
                SystemId::SpawnClouds => {
                    assert(step_spec(sys, old(self).state, old(self).area, input, a, snap(*self, *ev)));
                },
                SystemId::Gravity => {
                    assert(step_spec(sys, old(self).state, old(self).area, input, a, snap(*self, *ev)));
                },
                SystemId::FaceMovement => {
                    assert(step_spec(sys, old(self).state, old(self).area, input, a, snap(*self, *ev)));
                },
                SystemId::Jump => {
                    assert(step_spec(sys, old(self).state, old(self).area, input, a, snap(*self, *ev)));
                },
                SystemId::Movement => {
                    assert(step_spec(sys, old(self).state, old(self).area, input, a, snap(*self, *ev)));
                },
                SystemId::AttackState => {
                    assert(step_spec(sys, old(self).state, old(self).area, input, a, snap(*self, *ev)));
                },
                SystemId::OutOfBounds => {
                    assert(step_spec(sys, old(self).state, old(self).area, input, a, snap(*self, *ev)));
                },
                SystemId::Collision => {
                    assert(step_spec(sys, old(self).state, old(self).area, input, a, snap(*self, *ev)));
                },
                SystemId::Projectiles => {
                    assert(step_spec(sys, old(self).state, old(self).area, input, a, snap(*self, *ev)));
                },
                SystemId::PlayerCombat => {
                    assert(step_spec(sys, old(self).state, old(self).area, input, a, snap(*self, *ev)));
                },
                SystemId::ProjectileCombat => {
                    assert(step_spec(sys, old(self).state, old(self).area, input, a, snap(*self, *ev)));
                },
                SystemId::Boundary => {
                    assert(step_spec(sys, old(self).state, old(self).area, input, a, snap(*self, *ev)));
                },
                SystemId::ScoreEvents => {
                    assert(step_spec(sys, old(self).state, old(self).area, input, a, snap(*self, *ev)));
                },
                SystemId::GameOver => {
                    assert(step_spec(sys, old(self).state, old(self).area, input, a, snap(*self, *ev)));
                },
                SystemId::StartGame => {
                    assert(step_spec(sys, old(self).state, old(self).area, input, a, snap(*self, *ev)));
                },
                SystemId::Cleanup => {
                    assert(step_spec(sys, old(self).state, old(self).area, input, a, snap(*self, *ev)));
                },
                SystemId::EmitParticles => {
                    assert(step_spec(sys, old(self).state, old(self).area, input, a, snap(*self, *ev)));
                },
            }
        }
    }

    /// Leaves the current state for `next`, running the exit hook of the one
    /// and the enter hook of the other exactly once.
    fn transition(&mut self, next: GameState)
        requires
            old(self).wf(),
        ensures
            final(self).wf(),
            final(self).state == next,
            final(self).area == old(self).area,
            final(self).order@ == old(self).order@,
            next == GameState::Playing ==> final(self).elapsed.time_us == 0 && final(self).score == (Score { score: 0, current_combo: 0, max_combo: 0 }),
            next != GameState::Playing ==> final(self).elapsed.time_us == old(self).elapsed.time_us
                && final(self).score == old(self).score,
            final(self).world@ == transition_world(old(self).world@, old(self).state, next, old(self).area),
            next == GameState::Playing ==> final(self).bird_timer == Timer::new_spec(FIRST_SPAWN_NS)
                && final(self).tree_timer == Timer::new_spec(FIRST_SPAWN_NS)
                && final(self).cloud_timer == Timer::new_spec(FIRST_SPAWN_NS),
            next != GameState::Playing ==> final(self).bird_timer == old(self).bird_timer
                && final(self).tree_timer == old(self).tree_timer
                && final(self).cloud_timer == old(self).cloud_timer,
    {
        match self.state {
            GameState::Playing => self.world.run_op(SlotOp::KillPlayer),
            GameState::End => self.world.run_op(SlotOp::ClearCorpse),
            GameState::MainMenu => {},
        }
        match next {
            GameState::Playing => {
                self.elapsed = ElapsedTime { time_us: 0 };
                self.score = Score::new();
                let player: Components = make_player(self.area);
                let _ = self.world.spawn(player);
                self.bird_timer = Timer::new(FIRST_SPAWN_NS, TimerMode::Once);
                self.tree_timer = Timer::new(FIRST_SPAWN_NS, TimerMode::Once);
                self.cloud_timer = Timer::new(FIRST_SPAWN_NS, TimerMode::Once);
            },
            GameState::End => self.world.run_op(SlotOp::EndSession),
            GameState::MainMenu => {},
        }
        self.state = next;
    }

    /// Advances the simulation by one tick: every system runs once in the
    /// scheduled order, then a requested state change takes place.
    #[verifier::rlimit(100)]
    #[verifier::spinoff_prover]
    pub fn tick(&mut self, input: TickInput) -> (r: TickEvents)
        requires
            old(self).wf(),
        ensures
            final(self).wf(),
            final(self).area == old(self).area,
            final(self).order@ == old(self).order@,
            exists|trace: Seq<Snapshot>| {
                &&& #[trigger] tick_trace(old(self).order@, old(self).state, old(self).area, input, fresh(*old(self)), trace)
                &&& snap(*final(self), r) == settled(trace[SYSTEM_COUNT as int], old(self).state, final(self).state, old(self).area)
            },
            final(self).state == next_state_spec(old(self).state, input.confirm, r.game_over),
            r.end_requested == (old(self).state == GameState::Playing && r.game_over),
            r.start_requested == (old(self).state != GameState::Playing && input.confirm),
            r.game_over == (r.left_area || deadly_contact(r.collisions@)),
            r.left_area ==> old(self).state == GameState::Playing,
            (old(self).state == GameState::Playing && final(self).state == GameState::Playing) ==> final(self).elapsed.time_us
                == advanced(old(self).elapsed.time_us, input.dt_us),
            (old(self).state != GameState::Playing && final(self).state == GameState::Playing) ==> final(self).elapsed.time_us == 0
                && final(self).score == (Score { score: 0, current_combo: 0, max_combo: 0 }),
            (old(self).state != GameState::Playing && final(self).state != GameState::Playing) ==> final(self).elapsed.time_us
                == old(self).elapsed.time_us,
            old(self).state == GameState::Playing ==> final(self).score == stepped_all(old(self).score, r.score_events@, r.score_events@.len()),
            (old(self).state != GameState::Playing && final(self).state != GameState::Playing) ==> final(self).score == old(self).score,
    {
        let mut ev = TickEvents {
            collisions: Vec::new(),
            projectile_hits: Vec::new(),
            score_events: Vec::new(),
            emissions: Vec::new(),
            game_over: false,
            left_area: false,
            end_requested: false,
            start_requested: false,
        };
        let ghost start = *self;
        let ghost order = self.order@;
        let ghost mut trace: Seq<Snapshot> = seq![snap(*self, ev)];
        assert(snap(*self, ev) == fresh(start));
        let mut i: usize = 0;
        while i < self.order.len()
            invariant
                self.wf(),
                ev.wf(),
                self.state == start.state,
                self.area == start.area,
                self.order@ == order,
                order == start.order@,
                start.wf(),
                i <= SYSTEM_COUNT,
                self.elapsed.time_us == (if ran(order, i as int, 0) && start.state == GameState::Playing {
                    advanced(start.elapsed.time_us, input.dt_us)
                } else {
                    start.elapsed.time_us
                }),
                ev.start_requested == (ran(order, i as int, 17) && start.state != GameState::Playing && input.confirm),
                ev.end_requested == (ran(order, i as int, 16) && start.state == GameState::Playing && ev.game_over),
                ev.left_area ==> start.state == GameState::Playing,
                ev.game_over == (ev.left_area || (ran(order, i as int, 12) && deadly_contact(ev.collisions@))),
                ran(order, i as int, 16) ==> ran(order, i as int, 9) && ran(order, i as int, 12),
                ran(order, i as int, 12) ==> ran(order, i as int, 10),
                trace.len() == i + 1,
                trace[0] == fresh(start),
                trace[i as int] == snap(*self, ev),
                forall|j: int| 0 <= j < i ==> #[trigger] step_at(order, start.state, start.area, input, trace, j),
                ran(order, i as int, 15) ==> ran(order, i as int, 12) && ran(order, i as int, 13) && ran(order, i as int, 14),
                self.score == (if ran(order, i as int, 15) && start.state == GameState::Playing {
                    stepped_all(start.score, ev.score_events@, ev.score_events@.len())
                } else {
                    start.score
                }),
            decreases SYSTEM_COUNT - i,
        {
            let k = self.order[i];
            let sys = system_at(k);
            proof {
                lemma_tick_order_step(order, i as int);
                lemma_system_ids(k as int);
            }
            self.run_system(sys, input, &mut ev);
            proof {
                let old_trace = trace;
                trace = trace.push(snap(*self, ev));
                assert(step_at(order, start.state, start.area, input, trace, i as int));
                assert forall|j: int| 0 <= j < i + 1 implies #[trigger] step_at(order, start.state, start.area, input, trace, j) by {
                    if j < i {
                        assert(step_at(order, start.state, start.area, input, old_trace, j));
                        assert(trace[j] == old_trace[j] && trace[j + 1] == old_trace[j + 1]);
                    }
                }
            }
            i = i + 1;
        }
        proof {
            assert(occurs(order, 0));
            assert(occurs(order, 17));
            let a = choose|j: int| 0 <= j < order.len() && #[trigger] order[j] == 0;
            let b = choose|j: int| 0 <= j < order.len() && #[trigger] order[j] == 17;
            assert(ran(order, i as int, 0));
            assert(ran(order, i as int, 17));
            assert(occurs(order, 15));
            let c = choose|j: int| 0 <= j < order.len() && #[trigger] order[j] == 15;
            assert(ran(order, i as int, 15));
            assert(occurs(order, 16));
            let d = choose|j: int| 0 <= j < order.len() && #[trigger] order[j] == 16;
            assert(ran(order, i as int, 16));
            assert(tick_trace(order, start.state, start.area, input, fresh(start), trace));
        }
        let ghost last = snap(*self, ev);
        let next = next_state(self.state, input.confirm, ev.game_over);
        if next != self.state {
            self.transition(next);
        }
        proof {
            assert(snap(*self, ev) == settled(last, start.state, self.state, start.area));
        }
        ev
    }
}

} // verus!

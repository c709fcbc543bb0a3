//! The entity store: entities with their components, updates that rewrite
//! every entity at once, and deferred commands applied between systems.
use vstd::prelude::*;
use crate::physics::{
    Vec2, Transform, Movement, gravity_spec, advance_spec, facing_spec, apply_gravity,
    advance_position, facing_heading,
};
use crate::components::{
    Components, Player, PlayerCorpse, AttackState, Dead, ParticleEmitter, ParticleColor,
    EmissionDirection,
};
use crate::timer::{Timer, TimerMode, tick_spec};

verus! {

/// Upward speed given by a jump, in thousandths of a unit per second.
pub const PLAYER_JUMP_STRENGTH: i64 = 500_000;

/// Downward speed given to the player's corpse, in thousandths of a unit per second.
pub const PLAYER_CORPSE_SPEED: i64 = -250_000;

/// An opaque entity identifier.
#[derive(Clone, Copy, Debug, PartialEq, Eq, Structural)]
pub struct Entity {
    pub id: u64,
}

/// One live entity and its components.
#[derive(Clone, Copy, Debug, PartialEq, Eq, Structural)]
pub struct Slot {
    pub entity: Entity,
    pub parts: Components,
}

/// An update applied to every entity; each entity is kept, changed or removed.
#[derive(Clone, Copy, Debug, PartialEq, Eq, Structural)]
pub enum SlotOp {
    /// Remove the entity outright.
    Despawn(Entity),
    /// Take the obstacle tag and collider off the entity and mark it dead
    /// with a countdown.
    Retire(Entity, i64),
    /// Mark the entity dead with a countdown.
    MarkDead(Entity, i64),
    /// Blend every velocity that has gravity toward terminal velocity.
    ApplyGravity(u32),
    /// Turn every entity that faces its movement toward its velocity.
    FaceMovement,
    /// Move every entity with a velocity.
    Move(u32),
    /// Count down every dead entity and remove those that have run out.
    CleanDead(u32),
    /// Give the player the jump speed upward.
    Jump,
    /// Set the player's attack state from its vertical speed.
    UpdateAttack,
    /// Turn the player into a corpse falling downward.
    KillPlayer,
    /// Mark every obstacle that is not yet dead as dead.
    EndSession,
    /// Mark the player's corpse as dead.
    ClearCorpse,
}

/// A change to the store recorded by a system and applied after it.
#[derive(Clone, Copy, Debug, PartialEq, Eq, Structural)]
pub enum Command {
    Spawn(Components),
    Update(SlotOp),
}

impl Command {
    pub open spec fn wf(self) -> bool {
        match self {
            Command::Spawn(c) => c.wf(),
            Command::Update(op) => op.wf(),
        }
    }
}

pub open spec fn commands_wf(cmds: Seq<Command>) -> bool {
    forall|i: int| 0 <= i < cmds.len() ==> #[trigger] cmds[i].wf()
}

/// The store as a sequence of entities and the next free identifier.
pub struct WorldView {
    pub slots: Seq<Slot>,
    pub next_id: int,
}

/// The store after `cmd`.
pub open spec fn command_spec(w: WorldView, cmd: Command) -> WorldView {
    match cmd {
        Command::Spawn(c) => if w.next_id < u64::MAX && !(c.player.is_some() && has_player(w.slots))
            && !(c.player_collider.is_some() && has_player_collider(w.slots)) {
            WorldView { slots: w.slots.push(Slot { entity: Entity { id: w.next_id as u64 }, parts: c }), next_id: w.next_id + 1 }
        } else {
            w
        },
        Command::Update(op) => WorldView { slots: w.slots.filter_map(op_fn(op)), next_id: w.next_id },
    }
}

/// The store after the first `n` commands of `cmds`, in order.
pub open spec fn commands_spec(w: WorldView, cmds: Seq<Command>, n: nat) -> WorldView
    decreases n,
{
    if n == 0 || n > cmds.len() {
        w
    } else {
        command_spec(commands_spec(w, cmds, (n - 1) as nat), cmds[n - 1])
    }
}

/// The store: entities in order of creation, and the next free identifier.
pub struct World {
    slots: Vec<Slot>,
    next_id: u64,
}

/// The attack state that goes with a vertical speed: a swing while rising
/// faster than half the jump speed, its end while still rising, none else.
pub open spec fn attack_for(vy: int) -> AttackState {
    if vy > PLAYER_JUMP_STRENGTH / 2 {
        AttackState::Swinging
    } else if vy > 0 {
        AttackState::SwingEnd
    } else {
        AttackState::NotAttacking
    }
}

/// The emitter a dying player trails.
pub open spec fn corpse_emitter() -> ParticleEmitter {
    ParticleEmitter {
        emit_rate: 1,
        interval: Timer { duration_ns: 10_000_000, elapsed_ns: 0, mode: TimerMode::Repeating, just_finished: false },
        color: ParticleColor::Red,
        size: Vec2 { x: 8000, y: 8000 },
        direction: EmissionDirection::Global(Vec2 { x: 0, y: 1000 }),
        speed: 500_000,
    }
}

/// The remaining countdown of a dead entity after `dt_us`, or `None` once it
/// has run out.
pub open spec fn dead_tick(timer_us: int, dt_us: int) -> Option<int> {
    if timer_us - dt_us <= 0 { None } else { Some(timer_us - dt_us) }
}

pub open spec fn with_parts(s: Slot, p: Components) -> Option<Slot> {
    Some(Slot { entity: s.entity, parts: p })
}

/// What `op` makes of one entity.
pub open spec fn op_spec(op: SlotOp, s: Slot) -> Option<Slot> {
    let p = s.parts;
    match op {
        SlotOp::Despawn(e) => if s.entity == e { None } else { Some(s) },
        SlotOp::Retire(e, t) => if s.entity == e {
            with_parts(s, Components { obstacle: None, collider: None, dead: Some(Dead { timer_us: t }), ..p })
        } else {
            Some(s)
        },
        SlotOp::MarkDead(e, t) => if s.entity == e {
            with_parts(s, Components { dead: Some(Dead { timer_us: t }), ..p })
        } else {
            Some(s)
        },
        SlotOp::ApplyGravity(dt) => match (p.movement, p.gravity) {
            (Some(m), Some(g)) => with_parts(s, Components { movement: Some(gravity_spec(m, g, dt)), ..p }),
            _ => Some(s),
        },
        SlotOp::FaceMovement => match (p.transform, p.movement, p.face) {
            (Some(t), Some(m), Some(f)) => match facing_spec(f.neutral, m) {
                Some(h) => with_parts(s, Components { transform: Some(Transform { rotation: h, ..t }), ..p }),
                None => Some(s),
            },
            _ => Some(s),
        },
        SlotOp::Move(dt) => match (p.transform, p.movement) {
            (Some(t), Some(m)) => with_parts(
                s,
                Components { transform: Some(Transform { translation: advance_spec(t.translation, m, dt), ..t }), ..p },
            ),
            _ => Some(s),
        },
        SlotOp::CleanDead(dt) => match p.dead {
            Some(d) => match dead_tick(d.timer_us as int, dt as int) {
                Some(left) => with_parts(s, Components { dead: Some(Dead { timer_us: left as i64 }), ..p }),
                None => None,
            },
            None => Some(s),
        },
        SlotOp::Jump => match (p.player, p.movement) {
            (Some(_), Some(m)) => with_parts(s, Components { movement: Some(Movement { y: PLAYER_JUMP_STRENGTH, ..m }), ..p }),
            _ => Some(s),
        },
        SlotOp::UpdateAttack => match (p.player, p.movement) {
            (Some(_), Some(m)) => with_parts(s, Components { player: Some(Player { attack_state: attack_for(m.y as int) }), ..p }),
            _ => Some(s),
        },
        SlotOp::KillPlayer => match p.player {
            Some(_) => with_parts(
                s,
                Components {
                    player: None,
                    player_collider: None,
                    player_corpse: Some(PlayerCorpse),
                    movement: match p.movement {
                        Some(m) => Some(Movement { y: PLAYER_CORPSE_SPEED, ..m }),
                        None => None,
                    },
                    emitter: Some(corpse_emitter()),
                    ..p
                },
            ),
            None => Some(s),
        },
        SlotOp::EndSession => if p.obstacle.is_some() && p.dead.is_none() {
            with_parts(s, Components { dead: Some(Dead { timer_us: 0 }), ..p })
        } else {
            Some(s)
        },
        SlotOp::ClearCorpse => if p.player_corpse.is_some() && p.dead.is_none() {
            with_parts(s, Components { dead: Some(Dead { timer_us: 0 }), ..p })
        } else {
            Some(s)
        },
    }
}

/// `op_spec` for a fixed update, as a function of the entity.
pub open spec fn op_fn(op: SlotOp) -> spec_fn(Slot) -> Option<Slot> {
    |s: Slot| op_spec(op, s)
}

impl SlotOp {
    pub open spec fn wf(self) -> bool {
        match self {
            SlotOp::Retire(_, t) => t >= 0,
            SlotOp::MarkDead(_, t) => t >= 0,
            _ => true,
        }
    }
}

/// Identifiers strictly increase along the sequence.
pub open spec fn ids_increasing(s: Seq<Slot>) -> bool {
    forall|i: int, j: int| 0 <= i < j < s.len() ==> #[trigger] s[i].entity.id < #[trigger] s[j].entity.id
}

pub open spec fn ids_below(s: Seq<Slot>, b: int) -> bool {
    forall|i: int| 0 <= i < s.len() ==> #[trigger] s[i].entity.id < b
}

pub open spec fn parts_wf(s: Seq<Slot>) -> bool {
    forall|i: int| 0 <= i < s.len() ==> #[trigger] s[i].parts.wf()
}

pub open spec fn has_player(s: Seq<Slot>) -> bool {
    exists|i: int| 0 <= i < s.len() && (#[trigger] s[i].parts.player).is_some()
}

/// At most one entity carries the player tag.
pub open spec fn one_player(s: Seq<Slot>) -> bool {
    forall|i: int, j: int|
        0 <= i < s.len() && 0 <= j < s.len() && (#[trigger] s[i].parts.player).is_some()
            && (#[trigger] s[j].parts.player).is_some() ==> i == j
}

/// Whether some entity carries a player collider.
pub open spec fn has_player_collider(s: Seq<Slot>) -> bool {
    exists|i: int| 0 <= i < s.len() && (#[trigger] s[i].parts.player_collider).is_some()
}

/// At most one entity carries a player collider.
pub open spec fn one_player_collider(s: Seq<Slot>) -> bool {
    forall|i: int, j: int|
        0 <= i < s.len() && 0 <= j < s.len() && (#[trigger] s[i].parts.player_collider).is_some()
            && (#[trigger] s[j].parts.player_collider).is_some() ==> i == j
}

pub open spec fn slots_base_wf(s: Seq<Slot>, b: int) -> bool {
    ids_increasing(s) && ids_below(s, b) && parts_wf(s) && one_player(s)
}

pub open spec fn slots_wf(s: Seq<Slot>, b: int) -> bool {
    slots_base_wf(s, b) && one_player_collider(s)
}

/// An update that adds no player collider.
pub open spec fn adds_no_collider(f: spec_fn(Slot) -> Option<Slot>) -> bool {
    forall|s: Slot| (#[trigger] f(s)).is_some() ==> (f(s).unwrap().parts.player_collider.is_some() ==> s.parts.player_collider.is_some())
}

proof fn lemma_filter_map_one_collider(s: Seq<Slot>, f: spec_fn(Slot) -> Option<Slot>)
    requires
        one_player_collider(s),
        adds_no_collider(f),
    ensures
        one_player_collider(s.filter_map(f)),
        has_player_collider(s.filter_map(f)) ==> has_player_collider(s),
    decreases s.len(),
{
    if s.len() > 0 {
        let rest = s.drop_last();
        let last = s.last();
        assert(one_player_collider(rest)) by {
            assert forall|i: int, j: int|
                0 <= i < rest.len() && 0 <= j < rest.len() && (#[trigger] rest[i].parts.player_collider).is_some()
                    && (#[trigger] rest[j].parts.player_collider).is_some() implies i == j by {
                assert(s[i] == rest[i] && s[j] == rest[j]);
            }
        }
        lemma_filter_map_one_collider(rest, f);
        let fr = rest.filter_map(f);
        if has_player_collider(fr) {
            let i = choose|i: int| 0 <= i < rest.len() && (#[trigger] rest[i].parts.player_collider).is_some();
            assert(s[i] == rest[i]);
        }
        match f(last) {
            Some(t) => {
                assert(s.filter_map(f) == fr + seq![t]);
                let r = fr + seq![t];
                if t.parts.player_collider.is_some() && has_player_collider(fr) {
                    let i = choose|i: int| 0 <= i < rest.len() && (#[trigger] rest[i].parts.player_collider).is_some();
                    assert(s[i] == rest[i]);
                    assert(s[s.len() - 1].parts.player_collider.is_some());
                    assert(false);
                }
                assert forall|i: int, j: int|
                    0 <= i < r.len() && 0 <= j < r.len() && (#[trigger] r[i].parts.player_collider).is_some()
                        && (#[trigger] r[j].parts.player_collider).is_some() implies i == j by {
                    if i < fr.len() && j < fr.len() {
                        assert(r[i] == fr[i] && r[j] == fr[j]);
                    } else if i < fr.len() {
                        assert(r[i] == fr[i]);
                        assert(has_player_collider(fr));
                    } else if j < fr.len() {
                        assert(r[j] == fr[j]);
                        assert(has_player_collider(fr));
                    }
                }
                if has_player_collider(r) {
                    let k = choose|k: int| 0 <= k < r.len() && (#[trigger] r[k].parts.player_collider).is_some();
                    if k < fr.len() {
                        assert(r[k] == fr[k]);
                        assert(has_player_collider(fr));
                    } else {
                        assert(s[s.len() - 1].parts.player_collider.is_some());
                    }
                }
            },
            None => {
                assert(s.filter_map(f) == fr);
            },
        }
    }
}

/// An update that keeps identifiers, adds no player tag and keeps components
/// within bounds.
pub open spec fn tame(f: spec_fn(Slot) -> Option<Slot>) -> bool {
    forall|s: Slot|
        (#[trigger] f(s)).is_some() ==> {
            &&& f(s).unwrap().entity == s.entity
            &&& (f(s).unwrap().parts.player.is_some() ==> s.parts.player.is_some())
            &&& (s.parts.wf() ==> f(s).unwrap().parts.wf())
        }
}

proof fn lemma_filter_map_slots(s: Seq<Slot>, f: spec_fn(Slot) -> Option<Slot>, b: int)
    requires
        slots_base_wf(s, b),
        tame(f),
    ensures
        slots_base_wf(s.filter_map(f), b),
        has_player(s.filter_map(f)) ==> has_player(s),
    decreases s.len(),
{
    if s.len() > 0 {
        let rest = s.drop_last();
        let last = s.last();
        assert(slots_base_wf(rest, last.entity.id as int)) by {
            assert forall|i: int| 0 <= i < rest.len() implies #[trigger] rest[i].entity.id < last.entity.id by {
                assert(s[i].entity.id < s[s.len() - 1].entity.id);
            }
            assert forall|i: int, j: int|
                0 <= i < rest.len() && 0 <= j < rest.len() && (#[trigger] rest[i].parts.player).is_some()
                    && (#[trigger] rest[j].parts.player).is_some() implies i == j by {
                assert(s[i] == rest[i] && s[j] == rest[j]);
            }
        }
        lemma_filter_map_slots(rest, f, last.entity.id as int);
        let fr = rest.filter_map(f);
        if has_player(fr) {
            let i = choose|i: int| 0 <= i < rest.len() && (#[trigger] rest[i].parts.player).is_some();
            assert(s[i] == rest[i]);
        }
        match f(last) {
            Some(t) => {
                assert(s.filter_map(f) == fr + seq![t]);
                let r = fr + seq![t];
                if t.parts.player.is_some() {
                    assert(last.parts.player.is_some());
                    if has_player(fr) {
                        let i = choose|i: int| 0 <= i < rest.len() && (#[trigger] rest[i].parts.player).is_some();
                        assert(s[i] == rest[i]);
                        assert(s[s.len() - 1].parts.player.is_some());
                        assert(false);
                    }
                }
                assert(one_player(r)) by {
                    assert forall|i: int, j: int|
                        0 <= i < r.len() && 0 <= j < r.len() && (#[trigger] r[i].parts.player).is_some()
                            && (#[trigger] r[j].parts.player).is_some() implies i == j by {
                        if i < fr.len() && j < fr.len() {
                            assert(r[i] == fr[i] && r[j] == fr[j]);
                        } else if i < fr.len() {
                            assert(r[i] == fr[i]);
                            assert(has_player(fr));
                        } else if j < fr.len() {
                            assert(r[j] == fr[j]);
                            assert(has_player(fr));
                        }
                    }
                }
                assert(parts_wf(r)) by {
                    assert forall|i: int| 0 <= i < r.len() implies #[trigger] r[i].parts.wf() by {
                        if i < fr.len() {
                            assert(r[i] == fr[i]);
                        } else {
                            assert(s[s.len() - 1].parts.wf());
                        }
                    }
                }
                assert(ids_increasing(r)) by {
                    assert forall|i: int, j: int| 0 <= i < j < r.len() implies #[trigger] r[i].entity.id
                        < #[trigger] r[j].entity.id by {
                        assert(r[i] == fr[i]);
                        if j < fr.len() {
                            assert(r[j] == fr[j]);
                        }
                    }
                }
                assert(ids_below(r, b)) by {
                    assert forall|i: int| 0 <= i < r.len() implies #[trigger] r[i].entity.id < b by {
                        if i < fr.len() {
                            assert(r[i] == fr[i]);
                        } else {
                            assert(s[s.len() - 1].entity.id < b);
                        }
                    }
                }
                if has_player(r) {
                    let k = choose|k: int| 0 <= k < r.len() && (#[trigger] r[k].parts.player).is_some();
                    if k < fr.len() {
                        assert(r[k] == fr[k]);
                        assert(has_player(fr));
                    } else {
                        assert(s[s.len() - 1].parts.player.is_some());
                    }
                }
            },
            None => {
                assert(s.filter_map(f) == fr);
                assert forall|i: int| 0 <= i < fr.len() implies #[trigger] fr[i].entity.id < b by {
                    assert(s[s.len() - 1].entity.id < b);
                }
            },
        }
    }
}

proof fn lemma_op_tame(op: SlotOp)
    requires
        op.wf(),
    ensures
        tame(op_fn(op)),
        adds_no_collider(op_fn(op)),
{
    let f = op_fn(op);
    assert forall|s: Slot| (#[trigger] f(s)).is_some() implies {
        &&& f(s).unwrap().entity == s.entity
        &&& (f(s).unwrap().parts.player.is_some() ==> s.parts.player.is_some())
        &&& (s.parts.wf() ==> f(s).unwrap().parts.wf())
    } by {
        match op {
            SlotOp::KillPlayer => {
                assert(corpse_emitter().wf());
            },
            _ => {},
        }
    }
}

/// What `op` makes of one entity.
pub fn apply_op(op: SlotOp, s: Slot) -> (r: Option<Slot>)
    requires
        op.wf(),
        s.parts.wf(),
    ensures
        r == op_spec(op, s),
{
    let p = s.parts;
    match op {
        SlotOp::Despawn(e) => if s.entity == e { None } else { Some(s) },
        SlotOp::Retire(e, t) => if s.entity == e {
            Some(Slot { entity: s.entity, parts: Components { obstacle: None, collider: None, dead: Some(Dead { timer_us: t }), ..p } })
        } else {
            Some(s)
        },
        SlotOp::MarkDead(e, t) => if s.entity == e {
            Some(Slot { entity: s.entity, parts: Components { dead: Some(Dead { timer_us: t }), ..p } })
        } else {
            Some(s)
        },
        SlotOp::ApplyGravity(dt) => match (p.movement, p.gravity) {
            (Some(m), Some(g)) => Some(Slot { entity: s.entity, parts: Components { movement: Some(apply_gravity(m, g, dt)), ..p } }),
            _ => Some(s),
        },
        SlotOp::FaceMovement => match (p.transform, p.movement, p.face) {
            (Some(t), Some(m), Some(f)) => match facing_heading(f, m) {
                Some(h) => Some(Slot { entity: s.entity, parts: Components { transform: Some(Transform { rotation: h, ..t }), ..p } }),
                None => Some(s),
            },
            _ => Some(s),
        },
        SlotOp::Move(dt) => match (p.transform, p.movement) {
            (Some(t), Some(m)) => Some(Slot {
                entity: s.entity,
                parts: Components { transform: Some(Transform { translation: advance_position(t.translation, m, dt), ..t }), ..p },
            }),
            _ => Some(s),
        },
        SlotOp::CleanDead(dt) => match p.dead {
            Some(d) => {
                if d.timer_us <= dt as i64 {
                    None
                } else {
                    Some(Slot { entity: s.entity, parts: Components { dead: Some(Dead { timer_us: d.timer_us - dt as i64 }), ..p } })
                }
            },
            None => Some(s),
        },
        SlotOp::Jump => match (p.player, p.movement) {
            (Some(_), Some(m)) => Some(Slot { entity: s.entity, parts: Components { movement: Some(Movement { y: PLAYER_JUMP_STRENGTH, ..m }), ..p } }),
            _ => Some(s),
        },
        SlotOp::UpdateAttack => match (p.player, p.movement) {
            (Some(_), Some(m)) => {
                let a = if m.y > PLAYER_JUMP_STRENGTH / 2 {
                    AttackState::Swinging
                } else if m.y > 0 {
                    AttackState::SwingEnd
                } else {
                    AttackState::NotAttacking
                };
                Some(Slot { entity: s.entity, parts: Components { player: Some(Player { attack_state: a }), ..p } })
            },
            _ => Some(s),
        },
        SlotOp::KillPlayer => match p.player {
            Some(_) => {
                let movement = match p.movement {
                    Some(m) => Some(Movement { y: PLAYER_CORPSE_SPEED, ..m }),
                    None => None,
                };
                let emitter = ParticleEmitter::new(1, 10_000_000, TimerMode::Repeating).with_color(ParticleColor::Red);
                Some(Slot {
                    entity: s.entity,
                    parts: Components { player: None, player_collider: None, player_corpse: Some(PlayerCorpse), movement, emitter: Some(emitter), ..p },
                })
            },
            None => Some(s),
        },
        SlotOp::EndSession => if p.obstacle.is_some() && p.dead.is_none() {
            Some(Slot { entity: s.entity, parts: Components { dead: Some(Dead { timer_us: 0 }), ..p } })
        } else {
            Some(s)
        },
        SlotOp::ClearCorpse => if p.player_corpse.is_some() && p.dead.is_none() {
            Some(Slot { entity: s.entity, parts: Components { dead: Some(Dead { timer_us: 0 }), ..p } })
        } else {
            Some(s)
        },
    }
}

impl View for World {
    type V = WorldView;

    closed spec fn view(&self) -> WorldView {
        WorldView { slots: self.slots@, next_id: self.next_id as int }
    }
}

impl World {
    pub open spec fn wf(&self) -> bool {
        slots_wf(self@.slots, self@.next_id)
    }

    /// An empty store.
    pub fn new() -> (r: World)
        ensures
            r@.slots == Seq::<Slot>::empty(),
            r@.next_id == 0,
            r.wf(),
    {
        World { slots: Vec::new(), next_id: 0 }
    }

    /// The live entities in order of creation.
    pub fn slots(&self) -> (r: &Vec<Slot>)
        ensures
            r@ == self@.slots,
    {
        &self.slots
    }

    /// Number of live entities.
    pub fn len(&self) -> (r: usize)
        ensures
            r == self@.slots.len(),
    {
        self.slots.len()
    }

    /// The entity at position `i` in creation order.
    pub fn slot(&self, i: usize) -> (r: Slot)
        requires
            i < self@.slots.len(),
        ensures
            r == self@.slots[i as int],
    {
        self.slots[i]
    }

    /// The components of `e`, if it is live.
    pub fn get(&self, e: Entity) -> (r: Option<Components>)
        ensures
            r matches Some(c) ==> exists|i: int| 0 <= i < self@.slots.len() && self@.slots[i] == (Slot { entity: e, parts: c }),
            r is None ==> forall|i: int| 0 <= i < self@.slots.len() ==> self@.slots[i].entity != e,
    {
        let mut i: usize = 0;
        while i < self.slots.len()
            invariant
                i <= self.slots@.len(),
                forall|k: int| 0 <= k < i ==> self.slots@[k].entity != e,
            decreases self.slots@.len() - i,
        {
            if self.slots[i].entity == e {
                return Some(self.slots[i].parts);
            }
            i = i + 1;
        }
        None
    }

    /// Applies `op` to every entity.
    pub fn run_op(&mut self, op: SlotOp)
        requires
            old(self).wf(),
            op.wf(),
        ensures
            final(self)@.slots == old(self)@.slots.filter_map(op_fn(op)),
            final(self)@.next_id == old(self)@.next_id,
            final(self).wf(),
    {
        let ghost f = op_fn(op);
        let ghost orig = self.slots@;
        let mut out: Vec<Slot> = Vec::new();
        let mut i: usize = 0;
        while i < self.slots.len()
            invariant
                self.slots@ == orig,
                self.wf(),
                op.wf(),
                f == op_fn(op),
                i <= orig.len(),
                out@ == orig.take(i as int).filter_map(f),
            decreases orig.len() - i,
        {
            proof {
                orig.lemma_filter_map_take_succ(f, i as int);
                assert(f(orig[i as int]) == op_spec(op, orig[i as int]));
                assert(orig[i as int].parts.wf());
            }
            match apply_op(op, self.slots[i]) {
                Some(t) => out.push(t),
                None => {},
            }
            i = i + 1;
        }
        proof {
            assert(orig.take(orig.len() as int) == orig);
            lemma_op_tame(op);
            lemma_filter_map_slots(orig, f, self.next_id as int);
            lemma_filter_map_one_collider(orig, f);
        }
        self.slots = out;
    }

    /// Whether some entity carries the player tag.
    pub fn player_exists(&self) -> (r: bool)
        ensures
            r == has_player(self@.slots),
    {
        let mut i: usize = 0;
        while i < self.slots.len()
            invariant
                i <= self.slots@.len(),
                forall|k: int| 0 <= k < i ==> self.slots@[k].parts.player.is_none(),
            decreases self.slots@.len() - i,
        {
            if self.slots[i].parts.player.is_some() {
                return true;
            }
            i = i + 1;
        }
        false
    }

    /// Whether some entity carries a player collider.
    pub fn player_collider_exists(&self) -> (r: bool)
        ensures
            r == has_player_collider(self@.slots),
    {
        let mut i: usize = 0;
        while i < self.slots.len()
            invariant
                i <= self.slots@.len(),
                forall|k: int| 0 <= k < i ==> self.slots@[k].parts.player_collider.is_none(),
            decreases self.slots@.len() - i,
        {
            if self.slots[i].parts.player_collider.is_some() {
                return true;
            }
            i = i + 1;
        }
        false
    }

    /// Creates an entity with `parts`. Nothing is created when identifiers
    /// have run out, or when `parts` carries the player tag or a player
    /// collider and another entity already carries it.
    pub fn spawn(&mut self, parts: Components) -> (r: Option<Entity>)
        requires
            old(self).wf(),
            parts.wf(),
        ensures
            final(self).wf(),
            r is Some <==> (old(self)@.next_id < u64::MAX && !(parts.player.is_some() && has_player(old(self)@.slots))
                && !(parts.player_collider.is_some() && has_player_collider(old(self)@.slots))),
            r matches Some(e) ==> {
                &&& e.id == old(self)@.next_id
                &&& final(self)@.slots == old(self)@.slots.push(Slot { entity: e, parts })
                &&& final(self)@.next_id == old(self)@.next_id + 1
            },
            r is None ==> final(self)@ == old(self)@,
            final(self)@ == command_spec(old(self)@, Command::Spawn(parts)),
    {
        if self.next_id == u64::MAX {
            return None;
        }
        if parts.player.is_some() && self.player_exists() {
            return None;
        }
        if parts.player_collider.is_some() && self.player_collider_exists() {
            return None;
        }
        let e = Entity { id: self.next_id };
        let ghost before = self.slots@;
        self.slots.push(Slot { entity: e, parts });
        self.next_id = self.next_id + 1;
        proof {
            let s = self.slots@;
            assert forall|i: int| 0 <= i < s.len() implies #[trigger] s[i].parts.wf() by {
                if i < before.len() {
                    assert(s[i] == before[i]);
                }
            }
            assert forall|i: int, j: int| 0 <= i < j < s.len() implies #[trigger] s[i].entity.id
                < #[trigger] s[j].entity.id by {
                assert(s[i] == before[i]);
                if j < before.len() {
                    assert(s[j] == before[j]);
                }
            }
            assert forall|i: int| 0 <= i < s.len() implies #[trigger] s[i].entity.id < self.next_id by {
                if i < before.len() {
                    assert(s[i] == before[i]);
                }
            }
            assert forall|i: int, j: int|
                0 <= i < s.len() && 0 <= j < s.len() && (#[trigger] s[i].parts.player).is_some()
                    && (#[trigger] s[j].parts.player).is_some() implies i == j by {
                if i < before.len() && j < before.len() {
                    assert(s[i] == before[i] && s[j] == before[j]);
                } else if i < before.len() {
                    assert(s[i] == before[i]);
                    assert(has_player(before));
                } else if j < before.len() {
                    assert(s[j] == before[j]);
                    assert(has_player(before));
                }
            }
            assert forall|i: int, j: int|
                0 <= i < s.len() && 0 <= j < s.len() && (#[trigger] s[i].parts.player_collider).is_some()
                    && (#[trigger] s[j].parts.player_collider).is_some() implies i == j by {
                if i < before.len() && j < before.len() {
                    assert(s[i] == before[i] && s[j] == before[j]);
                } else if i < before.len() {
                    assert(s[i] == before[i]);
                    assert(has_player_collider(before));
                } else if j < before.len() {
                    assert(s[j] == before[j]);
                    assert(has_player_collider(before));
                }
            }
        }
        Some(e)
    }

    /// Applies `cmds` in order.
    pub fn apply_commands(&mut self, cmds: &Vec<Command>)
        requires
            old(self).wf(),
            commands_wf(cmds@),
        ensures
            final(self)@ == commands_spec(old(self)@, cmds@, cmds@.len()),
            final(self).wf(),
    {
        let ghost start = self@;
        let mut i: usize = 0;
        while i < cmds.len()
            invariant
                self.wf(),
                commands_wf(cmds@),
                i <= cmds@.len(),
                self@ == commands_spec(start, cmds@, i as nat),
            decreases cmds@.len() - i,
        {
            let ghost before = self@;
            assert(cmds@[i as int].wf());
            match cmds[i] {
                Command::Spawn(c) => {
                    let _ = self.spawn(c);
                },
                Command::Update(op) => {
                    self.run_op(op);
                },
            }
            assert(self@ == command_spec(before, cmds@[i as int])) by {
                match cmds@[i as int] {
                    Command::Spawn(c) => {
                        if self@.next_id != before.next_id {
                            assert(self@.slots == before.slots.push(Slot { entity: Entity { id: before.next_id as u64 }, parts: c }));
                        }
                    },
                    _ => {},
                }
            }
            i = i + 1;
        }
    }
}

/// Sum of the tick lengths of `dts`.
pub open spec fn total_time(dts: Seq<u32>) -> int
    decreases dts.len(),
{
    if dts.len() == 0 { 0 } else { dts[0] + total_time(dts.drop_first()) }
}

proof fn lemma_total_time_nonneg(dts: Seq<u32>)
    ensures
        total_time(dts) >= 0,
    decreases dts.len(),
{
    if dts.len() > 0 {
        lemma_total_time_nonneg(dts.drop_first());
    }
}

/// Particles due from one emitter on this tick. The direction is in world
/// space and not normalised; the renderer spreads each particle around it.
#[derive(Clone, Copy, Debug, PartialEq, Eq, Structural)]
pub struct Emission {
    pub source: Entity,
    pub at: Vec2,
    pub count: u8,
    pub color: ParticleColor,
    pub size: Vec2,
    pub direction_x: i128,
    pub direction_y: i128,
    pub speed: i64,
}

/// Largest magnitude of a component of an emission's direction.
pub const DIRECTION_LIMIT: i128 = 0x4_0000_0000_0000_0000_0000_0000_0000;

impl Emission {
    pub open spec fn wf(&self) -> bool {
        &&& self.at.wf()
        &&& -DIRECTION_LIMIT <= self.direction_x <= DIRECTION_LIMIT
        &&& -DIRECTION_LIMIT <= self.direction_y <= DIRECTION_LIMIT
        &&& 0 <= self.speed <= crate::physics::COORD_LIMIT
    }
}

pub open spec fn emissions_wf(es: Seq<Emission>) -> bool {
    forall|k: int| 0 <= k < es.len() ==> #[trigger] es[k].wf()
}

/// The world-space direction of `d` for an emitter whose rotation heading is `rot`.
pub open spec fn world_direction(d: EmissionDirection, rot: Vec2) -> (int, int) {
    match d {
        EmissionDirection::Global(v) => (v.x as int, v.y as int),
        EmissionDirection::Local(v) => (rot.x * v.x - rot.y * v.y, rot.x * v.y + rot.y * v.x),
    }
}

/// `s` with its emitter's interval advanced by `delta_ns`.
pub open spec fn emitter_ticked(s: Slot, delta_ns: u64) -> Option<Slot> {
    match (s.parts.emitter, s.parts.transform) {
        (Some(e), Some(_)) => with_parts(
            s,
            Components { emitter: Some(ParticleEmitter { interval: tick_spec(e.interval, delta_ns as int), ..e }), ..s.parts },
        ),
        _ => Some(s),
    }
}

/// The particles `s` emits when its interval runs out on this tick.
pub open spec fn emission_of(s: Slot, delta_ns: u64) -> Option<Emission> {
    match (s.parts.emitter, s.parts.transform) {
        (Some(e), Some(t)) => if tick_spec(e.interval, delta_ns as int).just_finished && e.emit_rate > 0 {
            let d = world_direction(e.direction, t.rotation);
            Some(
                Emission {
                    source: s.entity,
                    at: t.translation,
                    count: e.emit_rate,
                    color: e.color,
                    size: e.size,
                    direction_x: d.0 as i128,
                    direction_y: d.1 as i128,
                    speed: e.speed,
                },
            )
        } else {
            None
        },
        _ => None,
    }
}

pub open spec fn emitter_fn(delta_ns: u64) -> spec_fn(Slot) -> Option<Slot> {
    |s: Slot| emitter_ticked(s, delta_ns)
}

pub open spec fn emission_fn(delta_ns: u64) -> spec_fn(Slot) -> Option<Emission> {
    |s: Slot| emission_of(s, delta_ns)
}

/// The world-space direction of `d` for an emitter whose rotation heading is `rot`.
pub fn direction_in_world(d: EmissionDirection, rot: Vec2) -> (r: (i128, i128))
    requires
        match d {
            EmissionDirection::Local(v) => v.wf(),
            EmissionDirection::Global(v) => v.wf(),
        },
    ensures
        r.0 == world_direction(d, rot).0,
        r.1 == world_direction(d, rot).1,
        -DIRECTION_LIMIT <= r.0 <= DIRECTION_LIMIT,
        -DIRECTION_LIMIT <= r.1 <= DIRECTION_LIMIT,
{
    match d {
        EmissionDirection::Global(v) => (v.x as i128, v.y as i128),
        EmissionDirection::Local(v) => {
            let (hx, hy, vx, vy) = (rot.x as i128, rot.y as i128, v.x as i128, v.y as i128);
            let bound: i128 = 0x8000_0000_0000_0000 * 0x4_0000_0000_0000;
            assert(-bound <= hx * vx <= bound) by (nonlinear_arith)
                requires -0x8000_0000_0000_0000 <= hx <= 0x8000_0000_0000_0000, -0x4_0000_0000_0000 <= vx <= 0x4_0000_0000_0000, bound == 0x8000_0000_0000_0000 * 0x4_0000_0000_0000;
            assert(-bound <= hy * vy <= bound) by (nonlinear_arith)
                requires -0x8000_0000_0000_0000 <= hy <= 0x8000_0000_0000_0000, -0x4_0000_0000_0000 <= vy <= 0x4_0000_0000_0000, bound == 0x8000_0000_0000_0000 * 0x4_0000_0000_0000;
            assert(-bound <= hx * vy <= bound) by (nonlinear_arith)
                requires -0x8000_0000_0000_0000 <= hx <= 0x8000_0000_0000_0000, -0x4_0000_0000_0000 <= vy <= 0x4_0000_0000_0000, bound == 0x8000_0000_0000_0000 * 0x4_0000_0000_0000;
            assert(-bound <= hy * vx <= bound) by (nonlinear_arith)
                requires -0x8000_0000_0000_0000 <= hy <= 0x8000_0000_0000_0000, -0x4_0000_0000_0000 <= vx <= 0x4_0000_0000_0000, bound == 0x8000_0000_0000_0000 * 0x4_0000_0000_0000;
            (hx * vx - hy * vy, hx * vy + hy * vx)
        },
    }
}

impl World {
    /// Advances every emitter's interval by `delta_ns` and reports the
    /// particles that fall due.
    pub fn tick_emitters(&mut self, delta_ns: u64) -> (r: Vec<Emission>)
        requires
            old(self).wf(),
        ensures
            final(self).wf(),
            final(self)@.slots == old(self)@.slots.filter_map(emitter_fn(delta_ns)),
            final(self)@.next_id == old(self)@.next_id,
            r@ == old(self)@.slots.filter_map(emission_fn(delta_ns)),
            emissions_wf(r@),
    {
        let ghost f = emitter_fn(delta_ns);
        let ghost g = emission_fn(delta_ns);
        let ghost orig = self.slots@;
        let mut out: Vec<Slot> = Vec::new();
        let mut emitted: Vec<Emission> = Vec::new();
        let mut i: usize = 0;
        while i < self.slots.len()
            invariant
                self.slots@ == orig,
                self.wf(),
                f == emitter_fn(delta_ns),
                g == emission_fn(delta_ns),
                i <= orig.len(),
                out@ == orig.take(i as int).filter_map(f),
                emitted@ == orig.take(i as int).filter_map(g),
                emissions_wf(emitted@),
            decreases orig.len() - i,
        {
            proof {
                orig.lemma_filter_map_take_succ(f, i as int);
                orig.lemma_filter_map_take_succ(g, i as int);
                assert(f(orig[i as int]) == emitter_ticked(orig[i as int], delta_ns));
                assert(g(orig[i as int]) == emission_of(orig[i as int], delta_ns));
                assert(orig[i as int].parts.wf());
            }
            let s = self.slots[i];
            match (s.parts.emitter, s.parts.transform) {
                (Some(e), Some(t)) => {
                    let mut e2 = e;
                    let count = e2.tick(delta_ns);
                    if count > 0 {
                        let (dx, dy) = direction_in_world(e.direction, t.rotation);
                        emitted.push(Emission {
                            source: s.entity,
                            at: t.translation,
                            count,
                            color: e.color,
                            size: e.size,
                            direction_x: dx,
                            direction_y: dy,
                            speed: e.speed,
                        });
                    }
                    out.push(Slot { entity: s.entity, parts: Components { emitter: Some(e2), ..s.parts } });
                },
                _ => out.push(s),
            }
            i = i + 1;
        }
        proof {
            assert(orig.take(orig.len() as int) == orig);
            assert(tame(f)) by {
                assert forall|s: Slot| (#[trigger] f(s)).is_some() implies {
                    &&& f(s).unwrap().entity == s.entity
                    &&& (f(s).unwrap().parts.player.is_some() ==> s.parts.player.is_some())
                    &&& (s.parts.wf() ==> f(s).unwrap().parts.wf())
                } by {
                    assert(f(s) == emitter_ticked(s, delta_ns));
                }
            }
            lemma_filter_map_slots(orig, f, self.next_id as int);
            lemma_filter_map_one_collider(orig, f);
        }
        self.slots = out;
        emitted
    }
}

/// An entity after the cleanup passes of the ticks `dts`, or `None` once
/// one of them has removed it.
pub open spec fn cleaned_after(s: Slot, dts: Seq<u32>) -> Option<Slot>
    decreases dts.len(),
{
    if dts.len() == 0 {
        Some(s)
    } else {
        match op_spec(SlotOp::CleanDead(dts[0]), s) {
            Some(t) => cleaned_after(t, dts.drop_first()),
            None => None,
        }
    }
}

/// An entity marked dead with countdown `c` survives the cleanup passes of
/// ticks whose total length stays below `c`, with `c` minus that total left,
/// and is gone after the pass at which the total reaches `c`.
pub proof fn lemma_cleanup_removes_on_time(s: Slot, dts: Seq<u32>)
    requires
        s.parts.dead matches Some(d) && d.timer_us > 0,
    ensures
        ({
            let c = s.parts.dead.unwrap().timer_us as int;
            &&& total_time(dts) >= c ==> cleaned_after(s, dts) is None
            &&& total_time(dts) < c ==> (cleaned_after(s, dts) matches Some(t) && t.entity == s.entity
                && t.parts.dead == Some(Dead { timer_us: (c - total_time(dts)) as i64 }))
        }),
    decreases dts.len(),
{
    if dts.len() > 0 {
        let c = s.parts.dead.unwrap().timer_us as int;
        let rest = dts.drop_first();
        if c - dts[0] > 0 {
            let t = Slot { entity: s.entity, parts: Components { dead: Some(Dead { timer_us: (c - dts[0]) as i64 }), ..s.parts } };
            assert(op_spec(SlotOp::CleanDead(dts[0]), s) == Some(t));
            lemma_cleanup_removes_on_time(t, rest);
        } else {
            lemma_total_time_nonneg(rest);
        }
    }
}

} // verus!

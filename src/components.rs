//! Component records an entity may carry, and the full set of one entity.
use vstd::prelude::*;
use crate::physics::{
    COORD_LIMIT, Vec2, Transform, Movement, Gravity, Collider, PlayerCollider, Projectile,
    FaceMovementDirection,
};
use crate::timer::{Timer, TimerMode};

verus! {

/// The three kinds of obstacle.
#[derive(Clone, Copy, Debug, PartialEq, Eq, Structural)]
pub enum ObstacleKind {
    Tree,
    Bird,
    Cloud,
}

/// An obstacle; `defeated` marks the corpse left after combat.
#[derive(Clone, Copy, Debug, PartialEq, Eq, Structural)]
pub struct Obstacle {
    pub defeated: bool,
    pub kind: ObstacleKind,
}

/// Where the player is in a swing.
#[derive(Clone, Copy, Debug, PartialEq, Eq, Structural)]
pub enum AttackState {
    NotAttacking,
    Swinging,
    SwingEnd,
}

/// The player.
#[derive(Clone, Copy, Debug, PartialEq, Eq, Structural)]
pub struct Player {
    pub attack_state: AttackState,
}

/// Marks what is left of the player after a session ends.
#[derive(Clone, Copy, Debug, PartialEq, Eq, Structural)]
pub struct PlayerCorpse;

/// Marks an entity for removal once `timer_us` microseconds have run out.
#[derive(Clone, Copy, Debug, PartialEq, Eq, Structural)]
pub struct Dead {
    pub timer_us: i64,
}

/// Fades a sprite out: opacity lost per second, in thousandths.
#[derive(Clone, Copy, Debug, PartialEq, Eq, Structural)]
pub struct FadeOut {
    pub speed: i64,
}

/// Colour of emitted particles.
#[derive(Clone, Copy, Debug, PartialEq, Eq, Structural)]
pub enum ParticleColor {
    White,
    Red,
    Green,
}

/// Direction particles leave in: relative to the emitter's rotation, or in
/// world space.
#[derive(Clone, Copy, Debug, PartialEq, Eq, Structural)]
pub enum EmissionDirection {
    Local(Vec2),
    Global(Vec2),
}

/// Emits `emit_rate` particles each time its interval runs out.
#[derive(Clone, Copy, Debug, PartialEq, Eq, Structural)]
pub struct ParticleEmitter {
    pub emit_rate: u8,
    pub interval: Timer,
    pub color: ParticleColor,
    pub size: Vec2,
    pub direction: EmissionDirection,
    pub speed: i64,
}

impl Default for ParticleEmitter {
    /// One white particle of eight units whenever the interval, initially
    /// zero, runs out, leaving upward at 500 units per second.
    fn default() -> (r: ParticleEmitter)
        ensures
            r == (ParticleEmitter {
                emit_rate: 1,
                interval: Timer { duration_ns: 0, elapsed_ns: 0, mode: TimerMode::Once, just_finished: false },
                color: ParticleColor::White,
                size: Vec2 { x: 8000, y: 8000 },
                direction: EmissionDirection::Global(Vec2 { x: 0, y: 1000 }),
                speed: 500_000,
            }),
    {
        ParticleEmitter {
            emit_rate: 1,
            interval: Timer::new(0, TimerMode::Once),
            color: ParticleColor::White,
            size: Vec2 { x: 8000, y: 8000 },
            direction: EmissionDirection::Global(Vec2 { x: 0, y: 1000 }),
            speed: 500_000,
        }
    }
}

impl ParticleEmitter {
    /// White particles of eight units, leaving upward at 500 units per second.
    pub fn new(rate: u8, interval_ns: u64, mode: TimerMode) -> (r: ParticleEmitter)
        ensures
            r == (ParticleEmitter {
                emit_rate: rate,
                interval: Timer { duration_ns: interval_ns, elapsed_ns: 0, mode, just_finished: false },
                color: ParticleColor::White,
                size: Vec2 { x: 8000, y: 8000 },
                direction: EmissionDirection::Global(Vec2 { x: 0, y: 1000 }),
                speed: 500_000,
            }),
            r.wf(),
    {
        ParticleEmitter { emit_rate: rate, interval: Timer::new(interval_ns, mode), ..ParticleEmitter::default() }
    }

    pub fn with_color(self, color: ParticleColor) -> (r: ParticleEmitter)
        ensures
            r == (ParticleEmitter { color, ..self }),
            self.wf() ==> r.wf(),
    {
        ParticleEmitter { color, ..self }
    }

    pub fn with_direction(self, direction: EmissionDirection) -> (r: ParticleEmitter)
        ensures
            r == (ParticleEmitter { direction, ..self }),
            (self.wf() && match direction {
                EmissionDirection::Local(v) => v.wf(),
                EmissionDirection::Global(v) => v.wf(),
            }) ==> r.wf(),
    {
        ParticleEmitter { direction, ..self }
    }

    pub open spec fn wf(&self) -> bool {
        &&& self.interval.wf()
        &&& 0 <= self.speed <= COORD_LIMIT
        &&& match self.direction {
            EmissionDirection::Local(v) => v.wf(),
            EmissionDirection::Global(v) => v.wf(),
        }
    }

    /// Advances the emission interval; returns how many particles are due.
    pub fn tick(&mut self, delta_ns: u64) -> (r: u8)
        requires
            old(self).wf(),
        ensures
            final(self).interval == crate::timer::tick_spec(old(self).interval, delta_ns as int),
            final(self).wf(),
            r == (if final(self).interval.just_finished { old(self).emit_rate } else { 0 }),
            final(self).emit_rate == old(self).emit_rate,
            final(self).color == old(self).color,
            final(self).direction == old(self).direction,
            final(self).size == old(self).size,
            final(self).speed == old(self).speed,
    {
        if self.interval.tick(delta_ns) {
            self.emit_rate
        } else {
            0
        }
    }
}

/// A short-lived particle thrown out by an emitter.
#[derive(Clone, Copy, Debug, PartialEq, Eq, Structural)]
pub struct Particle {
    pub color: ParticleColor,
    pub size: Vec2,
}

/// Every component an entity may carry.
#[derive(Clone, Copy, Debug, PartialEq, Eq, Structural)]
pub struct Components {
    pub transform: Option<Transform>,
    pub movement: Option<Movement>,
    pub gravity: Option<Gravity>,
    pub face: Option<FaceMovementDirection>,
    pub collider: Option<Collider>,
    pub player_collider: Option<PlayerCollider>,
    pub projectile: Option<Projectile>,
    pub obstacle: Option<Obstacle>,
    pub player: Option<Player>,
    pub player_corpse: Option<PlayerCorpse>,
    pub emitter: Option<ParticleEmitter>,
    pub dead: Option<Dead>,
    pub fade: Option<FadeOut>,
    pub particle: Option<Particle>,
}

impl Components {
    /// The values each component must keep within.
    pub open spec fn wf(&self) -> bool {
        &&& (self.transform matches Some(t) ==> t.wf())
        &&& (self.movement matches Some(m) ==> m.wf())
        &&& (self.face matches Some(f) ==> f.wf())
        &&& (self.collider matches Some(c) ==> c.wf())
        &&& (self.player_collider matches Some(c) ==> c.wf())
        &&& (self.projectile matches Some(p) ==> p.wf())
        &&& (self.emitter matches Some(e) ==> e.wf())
        &&& (self.dead matches Some(d) ==> d.timer_us >= 0)
    }

    /// An entity with no components.
    pub fn empty() -> (r: Components)
        ensures
            r == Components::none(),
            r.wf(),
    {
        Components {
            transform: None,
            movement: None,
            gravity: None,
            face: None,
            collider: None,
            player_collider: None,
            projectile: None,
            obstacle: None,
            player: None,
            player_corpse: None,
            emitter: None,
            dead: None,
            fade: None,
            particle: None,
        }
    }

    pub open spec fn none() -> Components {
        Components {
            transform: None,
            movement: None,
            gravity: None,
            face: None,
            collider: None,
            player_collider: None,
            projectile: None,
            obstacle: None,
            player: None,
            player_corpse: None,
            emitter: None,
            dead: None,
            fade: None,
            particle: None,
        }
    }
}

/// An entity at `pos` with no rotation.
pub open spec fn placed(pos: Vec2) -> Transform {
    Transform { translation: pos, rotation: Vec2 { x: 1, y: 0 } }
}

pub fn place(pos: Vec2) -> (r: Transform)
    ensures
        r == placed(pos),
{
    Transform { translation: pos, rotation: Vec2 { x: 1, y: 0 } }
}

} // verus!

//! Collision detection: the player against live obstacles, and projectiles
//! against live obstacles.
use vstd::prelude::*;
use crate::physics::{
    Vec2, Collider, boxes_overlap, within_radius, overlaps, is_within, lemma_overlap_symmetric,
    dist_sq,
};
use crate::components::{AttackState, Obstacle, ObstacleKind};
use crate::combat::{collision_events_wf, projectile_events_wf};
use crate::world::{World, Entity, Slot, ids_increasing};

verus! {

/// The player touching an obstacle.
#[derive(Clone, Copy, Debug, PartialEq, Eq, Structural)]
pub struct CollisionEvent {
    pub player_state: AttackState,
    pub player: Entity,
    pub player_pos: Vec2,
    pub obstacle: Entity,
    pub obstacle_pos: Vec2,
    pub obstacle_kind: ObstacleKind,
    /// Whether the player came within the obstacle's kill radius.
    pub is_deadly: bool,
}

/// A projectile touching an obstacle.
#[derive(Clone, Copy, Debug, PartialEq, Eq, Structural)]
pub struct ProjectileCollisionEvent {
    pub projectile_pos: Vec2,
    pub hit: Entity,
    pub hit_pos: Vec2,
    pub hit_kind: ObstacleKind,
}

/// What collision detection reads of the player.
#[derive(Clone, Copy, Debug, PartialEq, Eq, Structural)]
pub struct PlayerBody {
    pub entity: Entity,
    pub pos: Vec2,
    pub size: Vec2,
    pub state: AttackState,
}

/// The player's body, if `s` is the player with a collider and a position.
pub open spec fn player_body(s: Slot) -> Option<PlayerBody> {
    match (s.parts.player, s.parts.player_collider, s.parts.transform) {
        (Some(p), Some(c), Some(t)) => Some(
            PlayerBody { entity: s.entity, pos: t.translation, size: c.collision_size, state: p.attack_state },
        ),
        _ => None,
    }
}

pub open spec fn body_fn() -> spec_fn(Slot) -> Option<PlayerBody> {
    |s: Slot| player_body(s)
}

/// The player's body in the store, if there is one.
pub open spec fn find_player(slots: Seq<Slot>) -> Option<PlayerBody> {
    let bodies = slots.filter_map(body_fn());
    if bodies.len() > 0 { Some(bodies[0]) } else { None }
}

/// Collider, position and tag of `s`, if it is a live obstacle that can be hit.
pub open spec fn target(s: Slot) -> Option<(Collider, Vec2, Obstacle)> {
    match (s.parts.obstacle, s.parts.collider, s.parts.transform, s.parts.dead) {
        (Some(o), Some(c), Some(t), None) => Some((c, t.translation, o)),
        _ => None,
    }
}

/// The event for the player touching `s`, if it does.
pub open spec fn collision_with(pl: PlayerBody, s: Slot) -> Option<CollisionEvent> {
    match target(s) {
        Some((c, pos, o)) => if boxes_overlap(pos, c.collision_size, pl.pos, pl.size) {
            Some(
                CollisionEvent {
                    player_state: pl.state,
                    player: pl.entity,
                    player_pos: pl.pos,
                    obstacle: s.entity,
                    obstacle_pos: pos,
                    obstacle_kind: o.kind,
                    is_deadly: within_radius(pl.pos, pos, c.kill_size as int),
                },
            )
        } else {
            None
        },
        None => None,
    }
}

pub open spec fn collision_fn(pl: PlayerBody) -> spec_fn(Slot) -> Option<CollisionEvent> {
    |s: Slot| collision_with(pl, s)
}

/// One event per live obstacle overlapping the player, in store order.
pub open spec fn collision_events(slots: Seq<Slot>) -> Seq<CollisionEvent> {
    match find_player(slots) {
        Some(pl) => slots.filter_map(collision_fn(pl)),
        None => Seq::empty(),
    }
}

/// The event for projectile `p` at `pos` touching `s`, if it does.
pub open spec fn projectile_hit(pos: Vec2, size: Vec2, s: Slot) -> Option<ProjectileCollisionEvent> {
    match target(s) {
        Some((c, opos, o)) => if boxes_overlap(opos, c.collision_size, pos, size) {
            Some(ProjectileCollisionEvent { projectile_pos: pos, hit: s.entity, hit_pos: opos, hit_kind: o.kind })
        } else {
            None
        },
        None => None,
    }
}

pub open spec fn hit_fn(pos: Vec2, size: Vec2) -> spec_fn(Slot) -> Option<ProjectileCollisionEvent> {
    |s: Slot| projectile_hit(pos, size, s)
}

/// The events of projectile `p` against every live obstacle of `slots`.
pub open spec fn hits_of(p: Slot, slots: Seq<Slot>) -> Seq<ProjectileCollisionEvent> {
    match (p.parts.projectile, p.parts.transform) {
        (Some(pr), Some(t)) => slots.filter_map(hit_fn(t.translation, pr.size)),
        _ => Seq::empty(),
    }
}

/// The events of the first `n` entities, as projectiles, against `slots`.
pub open spec fn projectile_events_upto(slots: Seq<Slot>, n: nat) -> Seq<ProjectileCollisionEvent>
    decreases n,
{
    if n == 0 || n > slots.len() {
        Seq::empty()
    } else {
        projectile_events_upto(slots, (n - 1) as nat) + hits_of(slots[n - 1], slots)
    }
}

/// One event per projectile and live obstacle that overlap.
pub open spec fn projectile_events(slots: Seq<Slot>) -> Seq<ProjectileCollisionEvent> {
    projectile_events_upto(slots, slots.len())
}

/// The player's body, if the store holds a player with a collider.
pub fn player_in(world: &World) -> (r: Option<PlayerBody>)
    requires
        world.wf(),
    ensures
        r == find_player(world@.slots),
        r matches Some(pl) ==> pl.pos.wf() && pl.size.is_extent(),
{
    let slots = world.slots();
    let ghost f = body_fn();
    let mut i: usize = 0;
    while i < slots.len()
        invariant
            slots@ == world@.slots,
            world.wf(),
            f == body_fn(),
            i <= slots@.len(),
            slots@.take(i as int).filter_map(f) == Seq::<PlayerBody>::empty(),
        decreases slots@.len() - i,
    {
        proof {
            slots@.lemma_filter_map_take_succ(f, i as int);
            assert(slots@[i as int].parts.wf());
            assert(f(slots@[i as int]) == player_body(slots@[i as int]));
        }
        let s = slots[i];
        match (s.parts.player, s.parts.player_collider, s.parts.transform) {
            (Some(p), Some(c), Some(t)) => {
                let body = PlayerBody { entity: s.entity, pos: t.translation, size: c.collision_size, state: p.attack_state };
                proof {
                    lemma_filter_map_prefix(slots@, f, (i + 1) as int);
                    assert(slots@.take(i + 1).filter_map(f)[0] == body);
                }
                return Some(body);
            },
            _ => {},
        }
        i = i + 1;
    }
    proof {
        assert(slots@.take(slots@.len() as int) == slots@);
    }
    None
}

/// The filter_map of a prefix is a prefix of the filter_map.
proof fn lemma_filter_map_prefix<A, B>(s: Seq<A>, f: spec_fn(A) -> Option<B>, n: int)
    requires
        0 <= n <= s.len(),
    ensures
        s.filter_map(f).len() >= s.take(n).filter_map(f).len(),
        forall|k: int| 0 <= k < s.take(n).filter_map(f).len() ==> s.filter_map(f)[k] == #[trigger] s.take(n).filter_map(f)[k],
    decreases s.len() - n,
{
    if n < s.len() {
        s.lemma_filter_map_take_succ(f, n);
        lemma_filter_map_prefix(s, f, n + 1);
        let a = s.take(n).filter_map(f);
        let b = s.take(n + 1).filter_map(f);
        assert forall|k: int| 0 <= k < a.len() implies s.filter_map(f)[k] == #[trigger] a[k] by {
            assert(b[k] == a[k]);
        }
    } else {
        assert(s.take(n) == s);
    }
}

/// Tests the player against every live obstacle; one event per overlap.
pub fn collision_detection(world: &World) -> (r: Vec<CollisionEvent>)
    requires
        world.wf(),
    ensures
        r@ == collision_events(world@.slots),
        collision_events_wf(r@),
{
    let pl = match player_in(world) {
        Some(pl) => pl,
        None => return Vec::new(),
    };
    let slots = world.slots();
    let ghost f = collision_fn(pl);
    let mut out: Vec<CollisionEvent> = Vec::new();
    let mut i: usize = 0;
    while i < slots.len()
        invariant
            slots@ == world@.slots,
            world.wf(),
            pl.pos.wf(),
            pl.size.is_extent(),
            f == collision_fn(pl),
            i <= slots@.len(),
            out@ == slots@.take(i as int).filter_map(f),
            collision_events_wf(out@),
        decreases slots@.len() - i,
    {
        proof {
            slots@.lemma_filter_map_take_succ(f, i as int);
            assert(slots@[i as int].parts.wf());
            assert(f(slots@[i as int]) == collision_with(pl, slots@[i as int]));
        }
        let s = slots[i];
        match (s.parts.obstacle, s.parts.collider, s.parts.transform, s.parts.dead) {
            (Some(o), Some(c), Some(t), None) => {
                let pos = t.translation;
                if overlaps(pos, c.collision_size, pl.pos, pl.size) {
                    out.push(CollisionEvent {
                        player_state: pl.state,
                        player: pl.entity,
                        player_pos: pl.pos,
                        obstacle: s.entity,
                        obstacle_pos: pos,
                        obstacle_kind: o.kind,
                        is_deadly: is_within(pl.pos, pos, c.kill_size),
                    });
                }
            },
            _ => {},
        }
        i = i + 1;
    }
    proof {
        assert(slots@.take(slots@.len() as int) == slots@);
    }
    out
}

/// Tests every projectile against every live obstacle; one event per overlap.
pub fn projectile_collision(world: &World) -> (r: Vec<ProjectileCollisionEvent>)
    requires
        world.wf(),
    ensures
        r@ == projectile_events(world@.slots),
        projectile_events_wf(r@),
{
    let slots = world.slots();
    let mut out: Vec<ProjectileCollisionEvent> = Vec::new();
    let mut i: usize = 0;
    while i < slots.len()
        invariant
            slots@ == world@.slots,
            world.wf(),
            i <= slots@.len(),
            out@ == projectile_events_upto(slots@, i as nat),
            projectile_events_wf(out@),
        decreases slots@.len() - i,
    {
        let p = slots[i];
        proof {
            assert(slots@[i as int].parts.wf());
        }
        match (p.parts.projectile, p.parts.transform) {
            (Some(pr), Some(t)) => {
                let pos = t.translation;
                let size = pr.size;
                let ghost f = hit_fn(pos, size);
                let ghost start = out@;
                let mut j: usize = 0;
                while j < slots.len()
                    invariant
                        slots@ == world@.slots,
                        world.wf(),
                        pos.wf(),
                        size.is_extent(),
                        f == hit_fn(pos, size),
                        j <= slots@.len(),
                        out@ == start + slots@.take(j as int).filter_map(f),
                        projectile_events_wf(out@),
                    decreases slots@.len() - j,
                {
                    proof {
                        slots@.lemma_filter_map_take_succ(f, j as int);
                        assert(slots@[j as int].parts.wf());
                        assert(f(slots@[j as int]) == projectile_hit(pos, size, slots@[j as int]));
                    }
                    let s = slots[j];
                    match (s.parts.obstacle, s.parts.collider, s.parts.transform, s.parts.dead) {
                        (Some(o), Some(c), Some(t2), None) => {
                            if overlaps(t2.translation, c.collision_size, pos, size) {
                                out.push(ProjectileCollisionEvent {
                                    projectile_pos: pos,
                                    hit: s.entity,
                                    hit_pos: t2.translation,
                                    hit_kind: o.kind,
                                });
                            }
                        },
                        _ => {},
                    }
                    proof {
                        assert(start + slots@.take(j + 1).filter_map(f) == (start + slots@.take(j as int).filter_map(f)) + (match f(slots@[j as int]) {
                            Some(e) => seq![e],
                            None => Seq::empty(),
                        }));
                    }
                    j = j + 1;
                }
                proof {
                    assert(slots@.take(slots@.len() as int) == slots@);
                }
            },
            _ => {
                proof {
                    assert(hits_of(slots@[i as int], slots@) == Seq::<ProjectileCollisionEvent>::empty());
                    assert(out@ + Seq::<ProjectileCollisionEvent>::empty() == out@);
                }
            },
        }
        i = i + 1;
    }
    out
}

/// Swapping the two boxes changes neither whether they touch nor whether
/// they lie within a kill radius of each other.
pub proof fn lemma_detection_symmetric(a: Vec2, a_size: Vec2, b: Vec2, b_size: Vec2, radius: int)
    ensures
        boxes_overlap(a, a_size, b, b_size) == boxes_overlap(b, b_size, a, a_size),
        within_radius(a, b, radius) == within_radius(b, a, radius),
{
    lemma_overlap_symmetric(a, a_size, b, b_size);
    assert(dist_sq(a, b) == dist_sq(b, a)) by (nonlinear_arith);
}

proof fn lemma_filter_map_all_none<A, B>(s: Seq<A>, f: spec_fn(A) -> Option<B>)
    requires
        forall|i: int| 0 <= i < s.len() ==> (#[trigger] f(s[i])).is_none(),
    ensures
        s.filter_map(f).len() == 0,
    decreases s.len(),
{
    if s.len() > 0 {
        let rest = s.drop_last();
        assert forall|i: int| 0 <= i < rest.len() implies (#[trigger] f(rest[i])).is_none() by {
            assert(rest[i] == s[i]);
        }
        lemma_filter_map_all_none(rest, f);
        assert(f(s[s.len() - 1]).is_none());
    }
}

/// When no live obstacle's box overlaps the player's, detection reports nothing;
/// every reported event names an obstacle whose box does overlap the player's.
pub proof fn lemma_no_overlap_no_events(slots: Seq<Slot>)
    requires
        forall|i: int| #![trigger slots[i]] 0 <= i < slots.len() ==> match (target(slots[i]), find_player(slots)) {
            (Some((c, pos, _)), Some(pl)) => !boxes_overlap(pos, c.collision_size, pl.pos, pl.size),
            _ => true,
        },
    ensures
        collision_events(slots).len() == 0,
{
    match find_player(slots) {
        Some(pl) => {
            let f = collision_fn(pl);
            assert forall|i: int| 0 <= i < slots.len() implies (#[trigger] f(slots[i])).is_none() by {
                assert(f(slots[i]) == collision_with(pl, slots[i]));
            }
            lemma_filter_map_all_none(slots, f);
        },
        None => {},
    }
}

/// `s`, if it is an obstacle not marked dead.
pub open spec fn active_obstacle(s: Slot) -> Option<Entity> {
    if s.parts.obstacle.is_some() && s.parts.dead.is_none() { Some(s.entity) } else { None }
}

pub open spec fn active_fn() -> spec_fn(Slot) -> Option<Entity> {
    |s: Slot| active_obstacle(s)
}

/// The obstacles not marked dead, in store order.
pub fn active_obstacles(world: &World) -> (r: Vec<Entity>)
    requires
        world.wf(),
    ensures
        r@ == world@.slots.filter_map(active_fn()),
{
    let slots = world.slots();
    let ghost f = active_fn();
    let mut out: Vec<Entity> = Vec::new();
    let mut i: usize = 0;
    while i < slots.len()
        invariant
            slots@ == world@.slots,
            f == active_fn(),
            i <= slots@.len(),
            out@ == slots@.take(i as int).filter_map(f),
        decreases slots@.len() - i,
    {
        proof {
            slots@.lemma_filter_map_take_succ(f, i as int);
            assert(f(slots@[i as int]) == active_obstacle(slots@[i as int]));
        }
        if slots[i].parts.obstacle.is_some() && slots[i].parts.dead.is_none() {
            out.push(slots[i].entity);
        }
        i = i + 1;
    }
    proof {
        assert(slots@.take(slots@.len() as int) == slots@);
    }
    out
}

/// An entity marked dead is never among the active obstacles, from the
/// moment the mark is applied.
pub proof fn lemma_dead_never_active(slots: Seq<Slot>, i: int)
    requires
        ids_increasing(slots),
        0 <= i < slots.len(),
        slots[i].parts.dead.is_some(),
    ensures
        !slots.filter_map(active_fn()).contains(slots[i].entity),
{
    let e = slots[i].entity;
    if slots.filter_map(active_fn()).contains(e) {
        slots.lemma_filter_map_contains(active_fn(), e);
        let t = choose|t: Slot| #[trigger] slots.contains(t) && active_fn()(t) == Some(e);
        let j = choose|j: int| 0 <= j < slots.len() && slots[j] == t;
        if j < i {
            assert(slots[j].entity.id < slots[i].entity.id);
        } else if i < j {
            assert(slots[i].entity.id < slots[j].entity.id);
        }
    }
}

proof fn lemma_filter_map_includes<A, B>(s: Seq<A>, f: spec_fn(A) -> Option<B>, i: int)
    requires
        0 <= i < s.len(),
        f(s[i]).is_some(),
    ensures
        s.filter_map(f).contains(f(s[i]).unwrap()),
    decreases s.len(),
{
    let e = f(s[i]).unwrap();
    if i == s.len() - 1 {
        assert(s.filter_map(f) == s.drop_last().filter_map(f) + seq![e]);
        assert(s.filter_map(f)[s.drop_last().filter_map(f).len() as int] == e);
    } else {
        let rest = s.drop_last();
        assert(rest[i] == s[i]);
        lemma_filter_map_includes(rest, f, i);
        let k = choose|k: int| 0 <= k < rest.filter_map(f).len() && rest.filter_map(f)[k] == e;
        match f(s.last()) {
            Some(x) => {
                assert(s.filter_map(f) == rest.filter_map(f) + seq![x]);
                assert(s.filter_map(f)[k] == e);
            },
            None => {
                assert(s.filter_map(f) == rest.filter_map(f));
            },
        }
    }
}

/// Whether `x` is an event `f` makes of some entity of `s`.
proof fn lemma_filter_map_contains_iff<B>(s: Seq<Slot>, f: spec_fn(Slot) -> Option<B>, x: B)
    ensures
        s.filter_map(f).contains(x) <==> exists|t: Slot| #[trigger] s.contains(t) && f(t) == Some(x),
{
    if s.filter_map(f).contains(x) {
        s.lemma_filter_map_contains(f, x);
    }
    if exists|t: Slot| #[trigger] s.contains(t) && f(t) == Some(x) {
        let t = choose|t: Slot| #[trigger] s.contains(t) && f(t) == Some(x);
        let i = choose|i: int| 0 <= i < s.len() && s[i] == t;
        lemma_filter_map_includes(s, f, i);
    }
}

/// Detection does not depend on the order in which entities are visited:
/// two stores holding the same entities, with the same player, report the
/// same set of collision events and of projectile hits against each
/// projectile.
pub proof fn lemma_detection_order_independent(s1: Seq<Slot>, s2: Seq<Slot>, pl: PlayerBody, pos: Vec2, size: Vec2)
    requires
        forall|t: Slot| s1.contains(t) <==> s2.contains(t),
    ensures
        forall|e: CollisionEvent| s1.filter_map(collision_fn(pl)).contains(e) <==> s2.filter_map(collision_fn(pl)).contains(e),
        forall|e: ProjectileCollisionEvent| s1.filter_map(hit_fn(pos, size)).contains(e) <==> s2.filter_map(hit_fn(pos, size)).contains(e),
{
    assert forall|e: CollisionEvent| s1.filter_map(collision_fn(pl)).contains(e) <==> s2.filter_map(collision_fn(pl)).contains(e) by {
        lemma_filter_map_contains_iff(s1, collision_fn(pl), e);
        lemma_filter_map_contains_iff(s2, collision_fn(pl), e);
    }
    assert forall|e: ProjectileCollisionEvent| s1.filter_map(hit_fn(pos, size)).contains(e) <==> s2.filter_map(hit_fn(pos, size)).contains(e) by {
        lemma_filter_map_contains_iff(s1, hit_fn(pos, size), e);
        lemma_filter_map_contains_iff(s2, hit_fn(pos, size), e);
    }
}

/// With no projectile's box overlapping any live obstacle's box, the
/// projectile pass reports nothing.
pub proof fn lemma_no_projectile_overlap_no_hits(slots: Seq<Slot>, n: nat)
    requires
        forall|i: int, j: int| #![trigger slots[i], slots[j]]
            0 <= i < slots.len() && 0 <= j < slots.len() ==> match (slots[i].parts.projectile, slots[i].parts.transform, target(slots[j])) {
                (Some(pr), Some(t), Some((c, pos, _))) => !boxes_overlap(pos, c.collision_size, t.translation, pr.size),
                _ => true,
            },
    ensures
        projectile_events_upto(slots, n).len() == 0,
    decreases n,
{
    if n > 0 && n <= slots.len() {
        lemma_no_projectile_overlap_no_hits(slots, (n - 1) as nat);
        let p = slots[n - 1];
        match (p.parts.projectile, p.parts.transform) {
            (Some(pr), Some(t)) => {
                let f = hit_fn(t.translation, pr.size);
                assert forall|j: int| 0 <= j < slots.len() implies (#[trigger] f(slots[j])).is_none() by {
                    assert(f(slots[j]) == projectile_hit(t.translation, pr.size, slots[j]));
                    assert(slots[n - 1] == p);
                }
                lemma_filter_map_all_none(slots, f);
            },
            _ => {},
        }
    }
}

/// No projectile hit names an entity marked dead, whenever the mark was set.
pub proof fn lemma_dead_never_hit(slots: Seq<Slot>, i: int, n: nat)
    requires
        ids_increasing(slots),
        0 <= i < slots.len(),
        slots[i].parts.dead.is_some(),
    ensures
        forall|k: int| 0 <= k < projectile_events_upto(slots, n).len() ==> (#[trigger] projectile_events_upto(slots, n)[k]).hit != slots[i].entity,
    decreases n,
{
    if n > 0 && n <= slots.len() {
        lemma_dead_never_hit(slots, i, (n - 1) as nat);
        let prev = projectile_events_upto(slots, (n - 1) as nat);
        let hits = hits_of(slots[n - 1], slots);
        assert forall|k: int| 0 <= k < hits.len() implies (#[trigger] hits[k]).hit != slots[i].entity by {
            let p = slots[n - 1];
            match (p.parts.projectile, p.parts.transform) {
                (Some(pr), Some(t)) => {
                    let f = hit_fn(t.translation, pr.size);
                    let e = hits[k];
                    assert(slots.filter_map(f).contains(e));
                    slots.lemma_filter_map_contains(f, e);
                    let u = choose|u: Slot| #[trigger] slots.contains(u) && f(u) == Some(e);
                    assert(f(u) == projectile_hit(t.translation, pr.size, u));
                    let j = choose|j: int| 0 <= j < slots.len() && slots[j] == u;
                    if e.hit == slots[i].entity {
                        if j < i {
                            assert(slots[j].entity.id < slots[i].entity.id);
                        } else if i < j {
                            assert(slots[i].entity.id < slots[j].entity.id);
                        }
                    }
                },
                _ => {},
            }
        }
        let all = projectile_events_upto(slots, n);
        assert(all == prev + hits);
        assert forall|k: int| 0 <= k < all.len() implies (#[trigger] all[k]).hit != slots[i].entity by {
            if k < prev.len() {
                assert(all[k] == prev[k]);
            } else {
                assert(all[k] == hits[k - prev.len()]);
            }
        }
    }
}

/// Every live obstacle whose box overlaps the player's, in either order of
/// the two boxes, is reported with the player's and the obstacle's own data.
pub proof fn lemma_overlap_reported(slots: Seq<Slot>, j: int)
    requires
        0 <= j < slots.len(),
        find_player(slots) is Some,
        target(slots[j]) is Some,
        ({
            let pl = find_player(slots).unwrap();
            let (c, pos, _) = target(slots[j]).unwrap();
            boxes_overlap(pl.pos, pl.size, pos, c.collision_size)
        }),
    ensures
        ({
            let pl = find_player(slots).unwrap();
            let (c, pos, o) = target(slots[j]).unwrap();
            collision_events(slots).contains(
                CollisionEvent {
                    player_state: pl.state,
                    player: pl.entity,
                    player_pos: pl.pos,
                    obstacle: slots[j].entity,
                    obstacle_pos: pos,
                    obstacle_kind: o.kind,
                    is_deadly: within_radius(pl.pos, pos, c.kill_size as int),
                },
            )
        }),
{
    let pl = find_player(slots).unwrap();
    let (c, pos, o) = target(slots[j]).unwrap();
    lemma_overlap_symmetric(pl.pos, pl.size, pos, c.collision_size);
    let f = collision_fn(pl);
    assert(f(slots[j]) == collision_with(pl, slots[j]));
    lemma_filter_map_includes(slots, f, j);
}

} // verus!

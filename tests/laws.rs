use flappy_barb::collision::{active_obstacles, collision_detection, projectile_collision};
use flappy_barb::components::{
    place, AttackState, Components, Dead, Obstacle, ObstacleKind, Player,
};
use flappy_barb::physics::{
    apply_gravity, overlaps, is_within, Collider, Gravity, Movement, PlayerCollider, Projectile,
    Vec2, TERMINAL_VELOCITY,
};
use flappy_barb::score::{Score, ScoreEvent};
use flappy_barb::world::{SlotOp, World};

#[test]
fn gravity_converges_without_overshoot() {
    let g = Gravity { x: 1000, y: 2000 };
    let mut m = Movement { x: 300_000, y: 500_000 };
    let mut prev_gap = (m.y - TERMINAL_VELOCITY).abs();
    for _ in 0..2000 {
        m = apply_gravity(m, g, 16_000);
        assert!(m.y >= TERMINAL_VELOCITY);
        let gap = (m.y - TERMINAL_VELOCITY).abs();
        assert!(gap <= prev_gap);
        prev_gap = gap;
    }
    assert_eq!(m.y, TERMINAL_VELOCITY);
    assert_eq!(m.x, 0);
}

#[test]
fn gravity_pulls_slow_fall_down_to_terminal() {
    let g = Gravity { x: 1000, y: 2000 };
    let mut m = Movement { x: 0, y: -900_000 };
    for _ in 0..500 {
        let next = apply_gravity(m, g, 33_000);
        assert!(next.y >= m.y);
        assert!(next.y <= TERMINAL_VELOCITY);
        m = next;
    }
    assert_eq!(m.y, TERMINAL_VELOCITY);
}

#[test]
fn gravity_one_step_exact() {
    let m = apply_gravity(Movement { x: 1000, y: 500_000 }, Gravity { x: 1000, y: 2000 }, 16_000);
    assert_eq!(m.y, 468_000);
    assert_eq!(m.x, 984);
}

#[test]
fn combo_sum_matches_formula() {
    let mut s = Score::new();
    let n = 37;
    let mut expected = 0;
    for i in 0..n {
        s.add_to_score();
        expected += 1 + i / 10;
    }
    assert_eq!(s.score, expected);
    assert_eq!(s.current_combo, n);
    assert_eq!(s.max_combo, n);
    assert_eq!(expected, 37 + 10 + 20 + 21);
}

#[test]
fn max_combo_is_highest_reached() {
    let mut s = Score::new();
    let evs = vec![
        ScoreEvent::Add,
        ScoreEvent::Add,
        ScoreEvent::Add,
        ScoreEvent::ResetCombo,
        ScoreEvent::Add,
        ScoreEvent::Add,
    ];
    s.apply_events(&evs);
    assert_eq!(s.current_combo, 2);
    assert_eq!(s.max_combo, 3);
    assert_eq!(s.score, 5);
    s.reset_combo();
    assert_eq!(s.max_combo, 3);
    assert_eq!(s.current_combo, 0);
}

#[test]
fn score_stops_at_limit() {
    let mut s = Score { score: i32::MAX, current_combo: 4, max_combo: 4 };
    s.apply_event(ScoreEvent::Add);
    assert_eq!(s, Score { score: i32::MAX, current_combo: 4, max_combo: 4 });
}

fn obstacle(kind: ObstacleKind, x: i64, y: i64) -> Components {
    Components {
        transform: Some(place(Vec2 { x, y })),
        obstacle: Some(Obstacle { defeated: false, kind }),
        collider: Some(Collider { collision_size: Vec2 { x: 100_000, y: 100_000 }, kill_size: 10_000 }),
        ..Components::empty()
    }
}

#[test]
fn dead_obstacle_leaves_active_set_at_once() {
    let mut world = World::new();
    let a = world.spawn(obstacle(ObstacleKind::Bird, 0, 0)).unwrap();
    let b = world.spawn(obstacle(ObstacleKind::Tree, 500_000, 0)).unwrap();
    assert_eq!(active_obstacles(&world), vec![a, b]);
    world.run_op(SlotOp::MarkDead(a, 1_000_000));
    assert_eq!(active_obstacles(&world), vec![b]);
    assert_eq!(world.len(), 2);
}

#[test]
fn dead_obstacle_is_not_collided() {
    let mut world = World::new();
    world
        .spawn(Components {
            transform: Some(place(Vec2 { x: 0, y: 0 })),
            player_collider: Some(PlayerCollider { collision_size: Vec2 { x: 100_000, y: 100_000 } }),
            player: Some(Player { attack_state: AttackState::Swinging }),
            ..Components::empty()
        })
        .unwrap();
    let a = world.spawn(obstacle(ObstacleKind::Bird, 0, 0)).unwrap();
    assert_eq!(collision_detection(&world).len(), 1);
    world.run_op(SlotOp::MarkDead(a, 0));
    assert!(collision_detection(&world).is_empty());
}

#[test]
fn countdown_removes_on_exact_sum() {
    let mut world = World::new();
    let e = world
        .spawn(Components { dead: Some(Dead { timer_us: 100_000 }), ..Components::empty() })
        .unwrap();
    world.run_op(SlotOp::CleanDead(30_000));
    assert_eq!(world.get(e).unwrap().dead.unwrap().timer_us, 70_000);
    world.run_op(SlotOp::CleanDead(69_999));
    assert_eq!(world.get(e).unwrap().dead.unwrap().timer_us, 1);
    world.run_op(SlotOp::CleanDead(1));
    assert!(world.get(e).is_none());
}

#[test]
fn zero_countdown_removed_next_pass() {
    let mut world = World::new();
    let e = world.spawn(Components { dead: Some(Dead { timer_us: 0 }), ..Components::empty() }).unwrap();
    world.run_op(SlotOp::CleanDead(0));
    assert!(world.get(e).is_none());
}

#[test]
fn overlap_is_symmetric() {
    let a = Vec2 { x: 0, y: 0 };
    let b = Vec2 { x: 89_999, y: 10_000 };
    let sa = Vec2 { x: 100_000, y: 50_000 };
    let sb = Vec2 { x: 80_000, y: 80_000 };
    assert_eq!(overlaps(a, sa, b, sb), overlaps(b, sb, a, sa));
    assert!(overlaps(a, sa, b, sb));
    let c = Vec2 { x: 90_001, y: 0 };
    assert!(!overlaps(a, sa, c, sb));
    assert!(!overlaps(c, sb, a, sa));
    assert_eq!(is_within(a, b, 100_000), is_within(b, a, 100_000));
}

#[test]
fn no_overlap_no_events() {
    let mut world = World::new();
    world
        .spawn(Components {
            transform: Some(place(Vec2 { x: 0, y: 0 })),
            player_collider: Some(PlayerCollider { collision_size: Vec2 { x: 100_000, y: 100_000 } }),
            player: Some(Player { attack_state: AttackState::NotAttacking }),
            ..Components::empty()
        })
        .unwrap();
    world.spawn(obstacle(ObstacleKind::Cloud, 300_000, 0)).unwrap();
    world
        .spawn(Components {
            transform: Some(place(Vec2 { x: -300_000, y: 0 })),
            projectile: Some(Projectile { size: Vec2 { x: 10_000, y: 10_000 } }),
            ..Components::empty()
        })
        .unwrap();
    assert!(collision_detection(&world).is_empty());
    assert!(projectile_collision(&world).is_empty());
}

#[test]
fn gravity_varying_ticks_never_overshoot() {
    let g = Gravity { x: 1000, y: 2000 };
    let mut m = Movement { x: 0, y: 400_000 };
    let dts = [16_000u32, 500_000, 1, 33_000, 250_000, 0, 100_000];
    let mut gap = (m.y - TERMINAL_VELOCITY).abs();
    for _ in 0..20 {
        for &dt in dts.iter() {
            m = apply_gravity(m, g, dt);
            assert!(m.y >= TERMINAL_VELOCITY);
            let now = (m.y - TERMINAL_VELOCITY).abs();
            assert!(now <= gap);
            gap = now;
        }
    }
    assert_eq!(m.y, TERMINAL_VELOCITY);
}

#[test]
fn dead_obstacle_is_not_hit_by_projectile() {
    let mut world = World::new();
    world
        .spawn(Components {
            transform: Some(place(Vec2 { x: 0, y: 0 })),
            projectile: Some(Projectile { size: Vec2 { x: 100_000, y: 100_000 } }),
            ..Components::empty()
        })
        .unwrap();
    let a = world.spawn(obstacle(ObstacleKind::Bird, 10_000, 0)).unwrap();
    assert_eq!(projectile_collision(&world).len(), 1);
    world.run_op(SlotOp::MarkDead(a, 250_000));
    assert!(projectile_collision(&world).is_empty());
}

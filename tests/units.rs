use flappy_barb::particles::{
    keep_within_pool, particle_commands, particle_velocity_of, room_for_particles, PARTICLE_LIFETIME_US,
    PARTICLE_LIMIT,
};
use flappy_barb::combat::{STRUCK_FADE_US, integer_sqrt, knockback, projectile_outcome, strike, midpoint_of};
use flappy_barb::collision::{ProjectileCollisionEvent, projectile_collision};
use flappy_barb::components::{
    place, Components, Obstacle, ObstacleKind, ParticleColor, ParticleEmitter, EmissionDirection,
};
use flappy_barb::physics::{
    advance_position, facing_heading, FaceMovementDirection, Collider, Movement, Projectile, Vec2,
    blend_toward, COORD_LIMIT,
};
use flappy_barb::schedule::{schedule, Constraint, ScheduleError};
use flappy_barb::score::ScoreEvent;
use flappy_barb::spawner::{
    bird_height, bird_interval, bird_kill_size, bird_speed, cloud_interval, make_cloud, make_player,
    make_tree, out_of_bounds, tree_interval, PlayArea,
};
use flappy_barb::state::{next_state, GameState};
use flappy_barb::timer::{Timer, TimerMode};
use flappy_barb::world::{Command, Entity, SlotOp, World, Emission};
use flappy_barb::game::{system_constraints, Game};

#[test]
fn square_roots() {
    assert_eq!(integer_sqrt(0), 0);
    assert_eq!(integer_sqrt(15), 3);
    assert_eq!(integer_sqrt(16), 4);
    assert_eq!(integer_sqrt(u128::MAX), u64::MAX);
    assert_eq!(integer_sqrt(25_000_000_000_000), 5_000_000);
}

#[test]
fn knockback_normalises() {
    let m = knockback(Vec2 { x: 3000, y: 4000 }, Vec2 { x: 0, y: 0 }, 0, 0);
    assert_eq!(m, Movement { x: 600_000, y: 800_000 });
    let m = knockback(Vec2 { x: 5, y: 5 }, Vec2 { x: 5, y: 5 }, 3, 4);
    assert_eq!(m, Movement { x: 0, y: 0 });
    let m = knockback(Vec2 { x: 0, y: 0 }, Vec2 { x: 1000, y: 0 }, 999, 0);
    assert_eq!(m, Movement { x: -1_000_000, y: 0 });
}

#[test]
fn midpoint_rounds_toward_zero() {
    assert_eq!(midpoint_of(Vec2 { x: 1, y: -3 }, Vec2 { x: 2, y: 0 }), Vec2 { x: 1, y: -1 });
}

#[test]
fn projectile_skips_cloud() {
    let (cmds, score) = strike(Entity { id: 3 }, ObstacleKind::Cloud, Vec2 { x: 0, y: 0 }, Vec2 { x: 10, y: 0 }, false, 0, 0);
    assert!(cmds.is_empty());
    assert!(score.is_none());
}

#[test]
fn player_cuts_cloud_in_two() {
    let (cmds, score) = strike(Entity { id: 3 }, ObstacleKind::Cloud, Vec2 { x: 0, y: 0 }, Vec2 { x: -1000, y: 0 }, true, 0, 0);
    assert!(score.is_none());
    assert_eq!(cmds.len(), 4);
    assert_eq!(cmds[0], Command::Update(SlotOp::Retire(Entity { id: 3 }, STRUCK_FADE_US)));
    match cmds[1] {
        Command::Spawn(c) => {
            assert_eq!(c.movement, Some(Movement { x: -500_000, y: 0 }));
            assert_eq!(c.transform.unwrap().translation, Vec2 { x: -64_000, y: 0 });
        }
        _ => panic!("expected a spawn"),
    }
    match cmds[2] {
        Command::Spawn(c) => {
            assert_eq!(c.movement, Some(Movement { x: 500_000, y: 0 }));
            assert_eq!(c.transform.unwrap().translation, Vec2 { x: 64_000, y: 0 });
        }
        _ => panic!("expected a spawn"),
    }
}

#[test]
fn falling_bird_strikes_bird() {
    let mut world = World::new();
    world
        .spawn(Components {
            transform: Some(place(Vec2 { x: 0, y: 50_000 })),
            projectile: Some(Projectile { size: Vec2 { x: 115_200, y: 89_600 } }),
            ..Components::empty()
        })
        .unwrap();
    let target = world
        .spawn(Components {
            transform: Some(place(Vec2 { x: 0, y: 0 })),
            obstacle: Some(Obstacle { defeated: false, kind: ObstacleKind::Bird }),
            collider: Some(Collider { collision_size: Vec2 { x: 115_200, y: 115_200 }, kill_size: 70_400 }),
            ..Components::empty()
        })
        .unwrap();
    let hits = projectile_collision(&world);
    assert_eq!(hits.len(), 1);
    assert_eq!(hits[0].hit, target);
    let outcome = projectile_outcome(&hits, &vec![0, 0]);
    assert_eq!(outcome.score_events, vec![ScoreEvent::Add]);
    assert!(!outcome.game_over);
}

#[test]
fn distant_projectile_hit_is_ignored() {
    let ev = ProjectileCollisionEvent {
        projectile_pos: Vec2 { x: 0, y: 0 },
        hit: Entity { id: 1 },
        hit_pos: Vec2 { x: 100_001, y: 0 },
        hit_kind: ObstacleKind::Bird,
    };
    let outcome = projectile_outcome(&vec![ev], &vec![0, 0]);
    assert!(outcome.commands.is_empty());
    assert!(outcome.score_events.is_empty());
    let near = ProjectileCollisionEvent { hit_pos: Vec2 { x: 100_000, y: 0 }, ..ev };
    let outcome = projectile_outcome(&vec![near], &vec![0, 0]);
    assert_eq!(outcome.commands.len(), 3);
}

#[test]
fn schedule_orders_constraints() {
    let cons = vec![Constraint { before: 2, after: 0 }, Constraint { before: 0, after: 1 }];
    assert_eq!(schedule(3, &cons), Ok(vec![2, 0, 1]));
    assert_eq!(schedule(3, &vec![]), Ok(vec![0, 1, 2]));
}

#[test]
fn schedule_rejects_cycle() {
    let cons = vec![
        Constraint { before: 0, after: 1 },
        Constraint { before: 1, after: 2 },
        Constraint { before: 2, after: 0 },
    ];
    assert_eq!(schedule(4, &cons), Err(ScheduleError::Cycle));
    assert_eq!(schedule(1, &vec![Constraint { before: 0, after: 0 }]), Err(ScheduleError::Cycle));
}

#[test]
fn schedule_rejects_unknown_system() {
    let cons = vec![Constraint { before: 0, after: 5 }];
    assert_eq!(schedule(3, &cons), Err(ScheduleError::UnknownSystem));
}

#[test]
fn game_systems_schedule() {
    let order = schedule(20, &system_constraints()).unwrap();
    assert_eq!(order.len(), 20);
    assert_eq!(order[19], 18);
    let pos = |v: usize| order.iter().position(|&x| x == v).unwrap();
    assert!(pos(4) < pos(7));
    assert!(pos(7) < pos(10));
    assert!(pos(12) < pos(16));
    assert!(pos(7) < pos(19));
    assert!(Game::new(PlayArea::view_box()).is_ok());
}

#[test]
fn spawn_formulas() {
    assert_eq!(bird_interval(0, 0), 1_000_000_000);
    assert_eq!(bird_interval(250, 600_000_000), 850_000_000);
    assert_eq!(bird_interval(5000, 7), 7);
    assert_eq!(tree_interval(5), 1_000_000_005);
    assert_eq!(cloud_interval(0), 3_000_000_000);
    let area = PlayArea::view_box();
    assert_eq!(bird_height(area, 0), 324_000);
    assert_eq!(bird_height(area, 599), -322_920);
    assert_eq!(bird_speed(0, 199), -400_000);
    assert_eq!(bird_speed(150, 0), -401_000);
    assert_eq!(bird_kill_size(0), 70_400);
    assert_eq!(bird_kill_size(300_000_000), 102_400);
    assert_eq!(bird_kill_size(u64::MAX), 102_400);
    let tree = make_tree(area);
    assert_eq!(tree.transform.unwrap().translation, Vec2 { x: 1_116_000, y: -412_000 });
    assert_eq!(tree.movement, Some(Movement { x: -200_000, y: 0 }));
    let cloud = make_cloud(area, 0);
    assert_eq!(cloud.transform.unwrap().translation, Vec2 { x: 1_116_000, y: 412_000 });
    let player = make_player(area);
    assert_eq!(player.transform.unwrap().translation, Vec2 { x: -604_000, y: 0 });
    assert!(!out_of_bounds(area, 0));
    assert!(out_of_bounds(area, 456_000));
    assert!(!out_of_bounds(area, 455_500));
}

#[test]
fn timers_count_down() {
    let mut t = Timer::new(1_000, TimerMode::Once);
    assert!(!t.tick(400));
    assert!(t.tick(600));
    assert!(!t.tick(600));
    let mut r = Timer::new(1_000, TimerMode::Repeating);
    assert!(r.tick(1_500));
    assert_eq!(r.elapsed_ns, 500);
    assert!(!r.tick(400));
    let mut e = ParticleEmitter::new(3, 100, TimerMode::Repeating).with_color(ParticleColor::Green);
    assert_eq!(e.tick(50), 0);
    assert_eq!(e.tick(50), 3);
    let e = e.with_direction(EmissionDirection::Local(Vec2 { x: 1, y: 0 }));
    assert_eq!(e.direction, EmissionDirection::Local(Vec2 { x: 1, y: 0 }));
}

#[test]
fn state_transitions() {
    assert_eq!(next_state(GameState::MainMenu, true, false), GameState::Playing);
    assert_eq!(next_state(GameState::MainMenu, false, true), GameState::MainMenu);
    assert_eq!(next_state(GameState::End, true, false), GameState::Playing);
    assert_eq!(next_state(GameState::Playing, true, false), GameState::Playing);
    assert_eq!(next_state(GameState::Playing, false, true), GameState::End);
}

#[test]
fn movement_and_facing() {
    let p = advance_position(Vec2 { x: 0, y: 0 }, Movement { x: -400_000, y: 1 }, 16_000);
    assert_eq!(p, Vec2 { x: -6_400, y: 0 });
    let p = advance_position(Vec2 { x: COORD_LIMIT, y: 0 }, Movement { x: COORD_LIMIT, y: 0 }, 1_000_000);
    assert_eq!(p.x, COORD_LIMIT);
    let face = FaceMovementDirection { neutral: Vec2 { x: 0, y: -1000 } };
    assert_eq!(facing_heading(face, Movement { x: 0, y: 0 }), None);
    assert_eq!(facing_heading(face, Movement { x: 0, y: -5 }), Some(Vec2 { x: 5000, y: 0 }));
    assert_eq!(facing_heading(face, Movement { x: 5, y: 0 }), Some(Vec2 { x: 0, y: 5000 }));
    assert_eq!(blend_toward(1000, 0, 500_000_000), 500);
}

#[test]
fn emitters_report_due_particles() {
    let mut world = World::new();
    let rotated = flappy_barb::physics::Transform {
        translation: Vec2 { x: 10, y: 20 },
        rotation: Vec2 { x: 0, y: 2 },
    };
    let src = world
        .spawn(Components {
            transform: Some(rotated),
            emitter: Some(
                ParticleEmitter::new(2, 1_000, TimerMode::Repeating)
                    .with_direction(EmissionDirection::Local(Vec2 { x: 0, y: 1000 })),
            ),
            ..Components::empty()
        })
        .unwrap();
    assert!(world.tick_emitters(500).is_empty());
    let out = world.tick_emitters(500);
    assert_eq!(
        out,
        vec![Emission {
            source: src,
            at: Vec2 { x: 10, y: 20 },
            count: 2,
            color: ParticleColor::White,
            size: Vec2 { x: 8000, y: 8000 },
            direction_x: -2000,
            direction_y: 0,
            speed: 500_000,
        }]
    );
}

#[test]
fn particle_velocity_spreads_and_scales() {
    assert_eq!(particle_velocity_of(0, 1000, 500_000, 500), Movement { x: 0, y: 500_000 });
    assert_eq!(particle_velocity_of(0, 1000, 500_000, 1000), Movement { x: -223_606, y: 447_213 });
    assert_eq!(particle_velocity_of(0, 0, 500_000, 7), Movement { x: 0, y: 0 });
    let huge = 1i128 << 110;
    let v = particle_velocity_of(huge, 0, 500_000, 500);
    assert_eq!(v, Movement { x: 500_000, y: 0 });
}

#[test]
fn emissions_become_particles_within_pool() {
    let e = Emission {
        source: Entity { id: 0 },
        at: Vec2 { x: 5, y: 6 },
        count: 3,
        color: ParticleColor::Red,
        size: Vec2 { x: 8000, y: 8000 },
        direction_x: 0,
        direction_y: 1000,
        speed: 500_000,
    };
    let mut cmds = particle_commands(&vec![e], &vec![500, 500, 500]);
    assert_eq!(cmds.len(), 3);
    match cmds[0] {
        Command::Spawn(c) => {
            assert_eq!(c.transform.unwrap().translation, Vec2 { x: 5, y: 6 });
            assert_eq!(c.movement, Some(Movement { x: 0, y: 500_000 }));
            assert_eq!(c.particle.unwrap().color, ParticleColor::Red);
            assert_eq!(c.dead.unwrap().timer_us, PARTICLE_LIFETIME_US);
        }
        _ => panic!("expected a spawn"),
    }
    let mut world = World::new();
    for _ in 0..PARTICLE_LIMIT - 2 {
        world.apply_commands(&vec![cmds[0]]);
    }
    let room = room_for_particles(&world);
    assert_eq!(room, 2);
    keep_within_pool(&mut cmds, room);
    assert_eq!(cmds.len(), 2);
    world.apply_commands(&cmds);
    assert_eq!(room_for_particles(&world), 0);
}

#[test]
fn second_player_collider_refused() {
    let mut world = World::new();
    let stray = Components {
        player_collider: Some(flappy_barb::physics::PlayerCollider { collision_size: Vec2 { x: 10, y: 10 } }),
        ..Components::empty()
    };
    assert!(world.spawn(stray).is_some());
    assert!(world.spawn(make_player(PlayArea::view_box())).is_none());
    assert_eq!(world.len(), 1);
}

#[test]
fn facing_heading_exact_at_bounds() {
    let face = FaceMovementDirection { neutral: Vec2 { x: 1000, y: -1000 } };
    let h = facing_heading(face, Movement { x: COORD_LIMIT, y: -COORD_LIMIT }).unwrap();
    assert_eq!(h, Vec2 { x: 2_000_000_000_000_000_000, y: 0 });
}

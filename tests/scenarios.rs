use flappy_barb::collision::{active_obstacles, collision_detection};
use flappy_barb::combat::{boundary_sweep, player_collision_outcome};
use flappy_barb::components::{
    place, AttackState, Components, Obstacle, ObstacleKind, Player,
};
use flappy_barb::game::{Game, TickInput};
use flappy_barb::physics::{Collider, Movement, PlayerCollider, Vec2};
use flappy_barb::score::{Score, ScoreEvent};
use flappy_barb::spawner::PlayArea;
use flappy_barb::state::{next_state, GameState};
use flappy_barb::world::{World, PLAYER_CORPSE_SPEED};
use flappy_barb::combat::STRUCK_FADE_US;

fn player_at(x: i64, y: i64, size: i64, state: AttackState) -> Components {
    Components {
        transform: Some(place(Vec2 { x, y })),
        player_collider: Some(PlayerCollider { collision_size: Vec2 { x: size, y: size } }),
        player: Some(Player { attack_state: state }),
        ..Components::empty()
    }
}

fn obstacle_at(kind: ObstacleKind, x: i64, y: i64, size: i64, kill: i64) -> Components {
    Components {
        transform: Some(place(Vec2 { x, y })),
        obstacle: Some(Obstacle { defeated: false, kind }),
        collider: Some(Collider { collision_size: Vec2 { x: size, y: size }, kill_size: kill }),
        ..Components::empty()
    }
}

#[test]
fn swinging_player_fells_tree() {
    let mut world = World::new();
    world.spawn(player_at(100_000, 0, 100_000, AttackState::Swinging)).unwrap();
    let tree = world.spawn(obstacle_at(ObstacleKind::Tree, 100_000, 0, 200_000, 102_400)).unwrap();
    let events = collision_detection(&world);
    assert_eq!(events.len(), 1);
    assert_eq!(events[0].obstacle_kind, ObstacleKind::Tree);
    assert_eq!(events[0].obstacle, tree);
    assert_eq!(events[0].player_state, AttackState::Swinging);
    let outcome = player_collision_outcome(&events, &vec![0, 0]);
    assert!(!outcome.game_over);
    assert!(outcome.score_events.is_empty());
    world.apply_commands(&outcome.commands);
    let struck = world.get(tree).unwrap();
    assert!(struck.obstacle.is_none());
    assert!(struck.dead.is_some());
    let mut corpses = 0;
    for s in world.slots().iter() {
        if let Some(o) = s.parts.obstacle {
            assert!(o.defeated);
            assert_eq!(o.kind, ObstacleKind::Tree);
            assert_eq!(s.parts.movement, Some(Movement { x: -300_000, y: -200_000 }));
            corpses += 1;
        }
    }
    assert_eq!(corpses, 1);
    assert!(!active_obstacles(&world).contains(&tree));
}

#[test]
fn swinging_player_kills_bird_and_scores() {
    let mut world = World::new();
    world.spawn(player_at(100_000, 0, 100_000, AttackState::Swinging)).unwrap();
    let bird = world.spawn(obstacle_at(ObstacleKind::Bird, 100_000, 0, 200_000, 70_400)).unwrap();
    let events = collision_detection(&world);
    assert_eq!(events.len(), 1);
    assert_eq!(events[0].obstacle_kind, ObstacleKind::Bird);
    let outcome = player_collision_outcome(&events, &vec![0, 0]);
    assert_eq!(outcome.score_events, vec![ScoreEvent::Add]);
    world.apply_commands(&outcome.commands);
    assert!(world.get(bird).unwrap().dead.is_some());
    let mut score = Score::new();
    score.apply_events(&outcome.score_events);
    assert_eq!(score.current_combo, 1);
    assert_eq!(score.score, 1);
    let corpse = world
        .slots()
        .iter()
        .find(|s| s.parts.obstacle.map(|o| o.defeated).unwrap_or(false))
        .unwrap();
    assert!(corpse.parts.projectile.is_some());
    assert!(corpse.parts.gravity.is_some());
    assert!(corpse.parts.face.is_some());
}

#[test]
fn unarmed_player_inside_kill_radius_ends_game() {
    let mut world = World::new();
    world.spawn(player_at(0, 0, 152_100, AttackState::NotAttacking)).unwrap();
    world.spawn(obstacle_at(ObstacleKind::Bird, 40_000, 0, 115_200, 50_000)).unwrap();
    let events = collision_detection(&world);
    assert_eq!(events.len(), 1);
    assert!(events[0].is_deadly);
    let outcome = player_collision_outcome(&events, &vec![7, 9]);
    assert!(outcome.game_over);
    assert!(outcome.commands.is_empty());
    assert!(outcome.score_events.is_empty());
    assert_eq!(next_state(GameState::Playing, false, outcome.game_over), GameState::End);
}

#[test]
fn unarmed_player_ends_game_through_tick() {
    let mut game = Game::new(PlayArea::view_box()).unwrap();
    assert_eq!(game.state, GameState::MainMenu);
    game.tick(TickInput { dt_us: 0, jump: false, confirm: true });
    assert_eq!(game.state, GameState::Playing);
    let mut bird = obstacle_at(ObstacleKind::Bird, -564_000, -250_000, 115_200, 50_000);
    bird.movement = None;
    game.world.spawn(bird).unwrap();
    let report = game.tick(TickInput { dt_us: 500_000, jump: false, confirm: false });
    assert_eq!(report.collisions.len(), 1);
    assert_eq!(report.collisions[0].player_state, AttackState::NotAttacking);
    assert!(report.collisions[0].is_deadly);
    assert!(report.game_over);
    assert_eq!(game.state, GameState::End);
}

#[test]
fn escaped_bird_breaks_combo() {
    let area = PlayArea::view_box();
    let mut world = World::new();
    let bird = world.spawn(obstacle_at(ObstacleKind::Bird, -1_000_000, 0, 115_200, 70_400)).unwrap();
    let (cmds, resets) = boundary_sweep(&world, area);
    assert_eq!(resets, vec![ScoreEvent::ResetCombo]);
    world.apply_commands(&cmds);
    let parts = world.get(bird).unwrap();
    assert!(parts.obstacle.is_none());
    assert_eq!(parts.dead.unwrap().timer_us, 1_000_000);
    let mut score = Score { score: 5, current_combo: 3, max_combo: 3 };
    score.apply_events(&resets);
    assert_eq!(score.current_combo, 0);
    assert_eq!(score.max_combo, 3);
    assert_eq!(score.score, 5);
}

#[test]
fn escaped_corpse_keeps_combo() {
    let area = PlayArea::view_box();
    let mut world = World::new();
    let mut corpse = obstacle_at(ObstacleKind::Bird, -1_000_000, 0, 115_200, 70_400);
    corpse.obstacle = Some(Obstacle { defeated: true, kind: ObstacleKind::Bird });
    world.spawn(corpse).unwrap();
    let (cmds, resets) = boundary_sweep(&world, area);
    assert_eq!(cmds.len(), 1);
    assert!(resets.is_empty());
}

#[test]
fn confirm_starts_session_with_player() {
    let mut game = Game::new(PlayArea::view_box()).unwrap();
    let report = game.tick(TickInput { dt_us: 16_000, jump: false, confirm: false });
    assert!(!report.start_requested);
    assert_eq!(game.state, GameState::MainMenu);
    let report = game.tick(TickInput { dt_us: 16_000, jump: false, confirm: true });
    assert!(report.start_requested);
    assert_eq!(game.state, GameState::Playing);
    assert_eq!(game.elapsed.time_us, 0);
    assert!(game.world.player_exists());
    game.tick(TickInput { dt_us: 16_000, jump: true, confirm: false });
    assert_eq!(game.elapsed.time_us, 16_000);
}

#[test]
fn swinging_player_scores_through_tick() {
    let mut game = Game::new(PlayArea::view_box()).unwrap();
    game.tick(TickInput { dt_us: 0, jump: false, confirm: true });
    assert_eq!(game.state, GameState::Playing);
    let mut bird = obstacle_at(ObstacleKind::Bird, -604_000, 0, 115_200, 70_400);
    bird.movement = None;
    let id = game.world.spawn(bird).unwrap();
    let report = game.tick(TickInput { dt_us: 0, jump: false, confirm: false });
    assert_eq!(report.collisions.len(), 1);
    assert_eq!(report.collisions[0].player_state, AttackState::Swinging);
    assert_eq!(report.score_events, vec![ScoreEvent::Add]);
    assert_eq!(game.score.current_combo, 1);
    assert_eq!(game.score.score, 1);
    assert_eq!(game.state, GameState::Playing);
    let struck = game.world.get(id).unwrap();
    assert!(struck.obstacle.is_none());
    assert_eq!(struck.dead.unwrap().timer_us, STRUCK_FADE_US);
}

#[test]
fn leaving_play_area_ends_game() {
    let mut game = Game::new(PlayArea::view_box()).unwrap();
    game.tick(TickInput { dt_us: 0, jump: false, confirm: true });
    let mut last = game.tick(TickInput { dt_us: 50_000, jump: false, confirm: false });
    let mut ticks = 0;
    while game.state == GameState::Playing && ticks < 200 {
        last = game.tick(TickInput { dt_us: 50_000, jump: false, confirm: false });
        ticks += 1;
    }
    assert_eq!(game.state, GameState::End);
    assert!(last.left_area);
    assert!(last.game_over);
    assert!(last.end_requested);
    let corpse = game
        .world
        .slots()
        .iter()
        .find(|s| s.parts.player_corpse.is_some())
        .unwrap();
    assert_eq!(corpse.parts.movement.unwrap().y, PLAYER_CORPSE_SPEED);
    assert!(!game.world.player_exists());
}

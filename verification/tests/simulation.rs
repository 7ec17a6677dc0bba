use space_shooter::game::Entity;
use space_shooter::game::Game;
use space_shooter::game::Key;

const W: i64 = 640_000;
const H: i64 = 480_000;

fn fresh() -> Game {
    Game::new(W, H)
}

#[test]
fn construction_centers_player() {
    let g = fresh();
    assert_eq!(g.player, Entity { x: 320_000, y: 460_000 });
    assert_eq!(g.bullets.len(), 0);
    assert_eq!(g.enemies.len(), 0);
    assert_eq!(g.enemy_spawn_timer, 0);
    assert_eq!(g.key_state, None);
}

#[test]
fn idle_step_changes_nothing_visible() {
    let mut g = fresh();
    g.update(0);
    assert_eq!(g.player, Entity { x: 320_000, y: 460_000 });
    assert_eq!(g.bullets.len(), 0);
    assert_eq!(g.enemies.len(), 0);
    g.update(500);
    assert_eq!(g.player, Entity { x: 320_000, y: 460_000 });
    assert_eq!(g.bullets.len(), 0);
    assert_eq!(g.enemies.len(), 0);
    assert_eq!(g.enemy_spawn_timer, 500);
}

#[test]
fn fire_emits_exactly_one_bullet_per_key_down() {
    let mut g = fresh();
    g.key_pressed(Key::Fire);
    assert_eq!(g.bullets.len(), 1);
    assert_eq!(g.bullets[0], Entity { x: 320_000, y: 440_000 });
    // Holding the key across steps fires nothing further.
    g.update_with_spawn(100, 0);
    g.update_with_spawn(100, 0);
    assert_eq!(g.bullets.len(), 1);
    // A second key-down event fires again.
    g.key_pressed(Key::Fire);
    assert_eq!(g.bullets.len(), 2);
}

#[test]
fn held_movement_key_moves_player_by_speed_times_dt() {
    let mut g = fresh();
    g.key_pressed(Key::MoveRight);
    g.update_with_spawn(100, 0);
    assert_eq!(g.player.x, 320_000 + 220 * 100);
    g.key_released(Key::MoveRight);
    g.key_pressed(Key::MoveLeft);
    g.update_with_spawn(50, 0);
    assert_eq!(g.player.x, 320_000 + 22_000 - 220 * 50);
    assert_eq!(g.player.y, 460_000);
}

#[test]
fn released_or_foreign_key_moves_nothing() {
    let mut g = fresh();
    g.key_pressed(Key::MoveRight);
    g.key_released(Key::Other);
    g.update_with_spawn(100, 0);
    assert_eq!(g.player.x, 320_000);
    // A later key-down overwrites the held key without restoring it.
    g.key_pressed(Key::MoveRight);
    g.key_pressed(Key::Other);
    g.update_with_spawn(100, 0);
    assert_eq!(g.player.x, 320_000);
}

#[test]
fn colliding_pair_is_removed() {
    let mut g = fresh();
    // Centers 5 pixels apart: strictly within the 10 pixel range.
    g.bullets = vec![Entity { x: 100_000, y: 100_000 }];
    g.enemies = vec![Entity { x: 105_000, y: 100_000 }];
    g.update_with_spawn(0, 0);
    assert_eq!(g.bullets.len(), 0);
    assert_eq!(g.enemies.len(), 0);
}

#[test]
fn pair_at_exactly_collision_distance_survives() {
    let mut g = fresh();
    // Centers exactly 10 pixels apart: not removed.
    g.bullets = vec![Entity { x: 100_000, y: 100_000 }];
    g.enemies = vec![Entity { x: 110_000, y: 100_000 }];
    g.update_with_spawn(0, 0);
    assert_eq!(g.bullets.len(), 1);
    assert_eq!(g.enemies.len(), 1);
}

#[test]
fn one_bullet_removes_every_enemy_in_range_and_leaves_once() {
    let mut g = fresh();
    // The first bullet overlaps two enemies; the second is far away.
    g.bullets = vec![
        Entity { x: 100_000, y: 100_000 },
        Entity { x: 300_000, y: 100_000 },
    ];
    g.enemies = vec![
        Entity { x: 103_000, y: 100_000 },
        Entity { x: 97_000, y: 100_000 },
    ];
    g.update_with_spawn(0, 0);
    // Both enemies fall; the colliding bullet is removed once, the far
    // bullet survives.
    assert_eq!(g.enemies.len(), 0);
    assert_eq!(g.bullets.len(), 1);
    assert_eq!(g.bullets[0].x, 300_000);
}

#[test]
fn offscreen_bullet_and_enemy_are_dropped() {
    let mut g = fresh();
    g.bullets = vec![Entity { x: 100_000, y: -5_000 }];
    g.enemies = vec![Entity { x: 200_000, y: 480_000 }];
    g.update_with_spawn(0, 0);
    assert_eq!(g.bullets.len(), 0);
    assert_eq!(g.enemies.len(), 0);
}

#[test]
fn five_grounded_enemies_force_a_reset() {
    let mut g = fresh();
    g.player = Entity { x: 10_000, y: 460_000 };
    g.enemy_spawn_timer = 700;
    g.key_pressed(Key::MoveRight);
    g.enemies = vec![
        Entity { x: 50_000, y: 460_000 },
        Entity { x: 150_000, y: 460_000 },
        Entity { x: 250_000, y: 460_000 },
        Entity { x: 350_000, y: 460_000 },
        Entity { x: 450_000, y: 460_000 },
    ];
    g.update_with_spawn(0, 0);
    assert_eq!(g.player, Entity { x: 320_000, y: 460_000 });
    assert_eq!(g.bullets.len(), 0);
    assert_eq!(g.enemies.len(), 0);
    assert_eq!(g.enemy_spawn_timer, 0);
    // The held key survives a reset.
    assert_eq!(g.key_state, Some(Key::MoveRight));
}

#[test]
fn four_grounded_enemies_do_not_reset() {
    let mut g = fresh();
    g.enemies = vec![
        Entity { x: 50_000, y: 460_000 },
        Entity { x: 150_000, y: 460_000 },
        Entity { x: 250_000, y: 460_000 },
        Entity { x: 350_000, y: 460_000 },
    ];
    g.update_with_spawn(0, 0);
    assert_eq!(g.enemies.len(), 4);
}

#[test]
fn spawn_timer_releases_one_enemy_at_the_crossing_step() {
    let mut g = fresh();
    g.update(700);
    assert_eq!(g.enemies.len(), 0);
    assert_eq!(g.enemy_spawn_timer, 700);
    g.update(700);
    // 1400 ms crossed the 1300 ms interval: exactly one enemy, at a random
    // x on the playfield, fallen by two integration passes.
    assert_eq!(g.enemies.len(), 1);
    assert!(0 <= g.enemies[0].x && g.enemies[0].x < W);
    assert_eq!(g.enemies[0].y, 2 * 50 * 700);
    assert_eq!(g.enemy_spawn_timer, 0);
}

#[test]
fn explicit_reset_reruns_construction() {
    let mut g = fresh();
    g.key_pressed(Key::Fire);
    g.enemies = vec![Entity { x: 50_000, y: 10_000 }];
    g.enemy_spawn_timer = 900;
    g.reset();
    assert_eq!(g.player, Entity { x: 320_000, y: 460_000 });
    assert_eq!(g.bullets.len(), 0);
    assert_eq!(g.enemies.len(), 0);
    assert_eq!(g.enemy_spawn_timer, 0);
}

#[test]
fn huge_dt_is_total_and_culls_everything() {
    let mut g = fresh();
    g.key_pressed(Key::Fire);
    g.update_with_spawn(i64::MAX, 12_345);
    // The timer crossed, so an enemy spawned, but both it and the bullet
    // left the clamped playfield within the same step.
    assert_eq!(g.bullets.len(), 0);
    assert_eq!(g.enemies.len(), 0);
    assert_eq!(g.enemy_spawn_timer, 0);
}

#[test]
fn negative_dt_moves_entities_backward() {
    let mut g = fresh();
    g.key_pressed(Key::MoveRight);
    g.update_with_spawn(-100, 0);
    assert_eq!(g.player.x, 320_000 - 22_000);
    assert_eq!(g.enemy_spawn_timer, -100);
}

#[test]
fn end_to_end_fire_then_step() {
    let mut g = Game::new(640_000, 480_000);
    g.key_pressed(Key::Fire);
    assert_eq!(g.bullets.len(), 1);
    assert_eq!(g.bullets[0], Entity { x: 320_000, y: 440_000 });
    g.update(100);
    // Two integration passes per step: the bullet rises twice 30 pixels.
    assert_eq!(g.bullets.len(), 1);
    assert_eq!(g.bullets[0], Entity { x: 320_000, y: 440_000 - 2 * 30_000 });
    assert_eq!(g.player, Entity { x: 320_000, y: 460_000 });
    assert_eq!(g.enemies.len(), 0);
}

#[test]
fn snapshot_returns_equal_copies() {
    let mut g = fresh();
    g.key_pressed(Key::Fire);
    g.enemies = vec![Entity { x: 50_000, y: 10_000 }];
    let (player, bullets, enemies) = g.snapshot_for_render();
    assert_eq!(player, g.player);
    assert_eq!(bullets, g.bullets);
    assert_eq!(enemies, g.enemies);
}

//! Laws of the simulation, stated over the same spec functions that the
//! methods' contracts use and proved from them.

use vstd::prelude::*;

use crate::clamped;
use crate::game::all_in_range;
use crate::game::close;
use crate::game::entity_in_range;
use crate::game::count_on_ground;
use crate::game::cull_hit;
use crate::game::hits_some;
use crate::game::in_range;
use crate::game::is_reset;
use crate::game::moved;
use crate::game::on_ground;
use crate::game::onscreen_bullets;
use crate::game::onscreen_enemies;
use crate::game::shifted;
use crate::game::step_rel;
use crate::game::well_formed;
use crate::game::Entity;
use crate::game::Game;
use crate::game::Key;
use crate::game::BULLET_SPEED;
use crate::game::EDGE_MARGIN;
use crate::game::ENEMY_SPAWN_INTERVAL;
use crate::game::ENEMY_SPEED;
use crate::game::MAX_ENEMIES_ON_GROUND;
use crate::game::PLAYER_SPEED;

verus! {

proof fn lemma_cull_len(s: Seq<Entity>, others: Seq<Entity>)
    ensures
        cull_hit(s, others).len() <= s.len(),
    decreases s.len(),
{
    if s.len() > 0 {
        lemma_cull_len(s.drop_last(), others);
    }
}

proof fn lemma_cull_elements(s: Seq<Entity>, others: Seq<Entity>)
    ensures
        forall|k: int|
            0 <= k < cull_hit(s, others).len() ==> !hits_some(
                #[trigger] cull_hit(s, others)[k],
                others,
            ) && s.contains(cull_hit(s, others)[k]),
    decreases s.len(),
{
    if s.len() > 0 {
        lemma_cull_elements(s.drop_last(), others);
        let rest = cull_hit(s.drop_last(), others);
        assert forall|k: int| 0 <= k < cull_hit(s, others).len() implies !hits_some(
            #[trigger] cull_hit(s, others)[k],
            others,
        ) && s.contains(cull_hit(s, others)[k]) by {
            if k < rest.len() {
                assert(cull_hit(s, others)[k] == rest[k]);
                assert(s.drop_last().contains(rest[k]));
                let w = choose|w: int|
                    0 <= w < s.drop_last().len() && s.drop_last()[w] == rest[k];
                assert(s[w] == rest[k]);
            } else {
                assert(cull_hit(s, others)[k] == s.last());
                assert(s[s.len() - 1] == s.last());
            }
        }
    }
}

proof fn lemma_cull_excludes(s: Seq<Entity>, others: Seq<Entity>, e: Entity)
    requires
        hits_some(e, others),
    ensures
        !cull_hit(s, others).contains(e),
{
    lemma_cull_elements(s, others);
    if cull_hit(s, others).contains(e) {
        let k = choose|k: int| 0 <= k < cull_hit(s, others).len() && cull_hit(s, others)[k] == e;
        assert(!hits_some(cull_hit(s, others)[k], others));
    }
}

proof fn lemma_cull_all_kept(s: Seq<Entity>, others: Seq<Entity>)
    requires
        forall|i: int| 0 <= i < s.len() ==> !hits_some(#[trigger] s[i], others),
    ensures
        cull_hit(s, others) == s,
    decreases s.len(),
{
    if s.len() == 0 {
        assert(cull_hit(s, others) =~= s);
    } else {
        assert(forall|i: int|
            0 <= i < s.drop_last().len() ==> !hits_some(#[trigger] s.drop_last()[i], others));
        lemma_cull_all_kept(s.drop_last(), others);
        assert(!hits_some(s.last(), others)) by {
            assert(s[s.len() - 1] == s.last());
        }
        assert(cull_hit(s.drop_last(), others).push(s.last()) =~= s);
    }
}

proof fn lemma_onscreen_bullets_len(s: Seq<Entity>)
    ensures
        onscreen_bullets(s).len() <= s.len(),
    decreases s.len(),
{
    if s.len() > 0 {
        lemma_onscreen_bullets_len(s.drop_last());
    }
}

proof fn lemma_onscreen_bullets_pos(s: Seq<Entity>)
    ensures
        forall|k: int| 0 <= k < onscreen_bullets(s).len() ==> #[trigger] onscreen_bullets(s)[k].y
            > 0,
    decreases s.len(),
{
    if s.len() > 0 {
        lemma_onscreen_bullets_pos(s.drop_last());
        let rest = onscreen_bullets(s.drop_last());
        assert forall|k: int| 0 <= k < onscreen_bullets(s).len() implies #[trigger] onscreen_bullets(
            s,
        )[k].y > 0 by {
            if s.last().y > 0 {
                assert(onscreen_bullets(s) == rest.push(s.last()));
                if k < rest.len() {
                    assert(onscreen_bullets(s)[k] == rest[k]);
                } else {
                    assert(onscreen_bullets(s)[k] == s.last());
                }
            } else {
                assert(onscreen_bullets(s) == rest);
            }
        }
    }
}

proof fn lemma_onscreen_enemies_bound(s: Seq<Entity>, height: int)
    ensures
        forall|k: int|
            0 <= k < onscreen_enemies(s, height).len() ==> #[trigger] onscreen_enemies(
                s,
                height,
            )[k].y < height,
    decreases s.len(),
{
    if s.len() > 0 {
        lemma_onscreen_enemies_bound(s.drop_last(), height);
        let rest = onscreen_enemies(s.drop_last(), height);
        assert forall|k: int|
            0 <= k < onscreen_enemies(s, height).len() implies #[trigger] onscreen_enemies(
            s,
            height,
        )[k].y < height by {
            if s.last().y < height {
                assert(onscreen_enemies(s, height) == rest.push(s.last()));
                if k < rest.len() {
                    assert(onscreen_enemies(s, height)[k] == rest[k]);
                } else {
                    assert(onscreen_enemies(s, height)[k] == s.last());
                }
            } else {
                assert(onscreen_enemies(s, height) == rest);
            }
        }
    }
}

proof fn lemma_onscreen_enemies_all(s: Seq<Entity>, height: int)
    requires
        forall|i: int| 0 <= i < s.len() ==> #[trigger] s[i].y < height,
    ensures
        onscreen_enemies(s, height) == s,
    decreases s.len(),
{
    if s.len() == 0 {
        assert(onscreen_enemies(s, height) =~= s);
    } else {
        assert(forall|i: int| 0 <= i < s.drop_last().len() ==> #[trigger] s.drop_last()[i].y
            < height);
        lemma_onscreen_enemies_all(s.drop_last(), height);
        assert(s[s.len() - 1] == s.last());
        assert(onscreen_enemies(s.drop_last(), height).push(s.last()) =~= s);
    }
}

proof fn lemma_count_bounds(s: Seq<Entity>, height: int)
    ensures
        0 <= count_on_ground(s, height) <= s.len(),
    decreases s.len(),
{
    if s.len() > 0 {
        lemma_count_bounds(s.drop_last(), height);
    }
}

proof fn lemma_count_all(s: Seq<Entity>, height: int)
    requires
        forall|i: int| 0 <= i < s.len() ==> on_ground(#[trigger] s[i], height),
    ensures
        count_on_ground(s, height) == s.len(),
    decreases s.len(),
{
    if s.len() > 0 {
        assert(forall|i: int|
            0 <= i < s.drop_last().len() ==> on_ground(#[trigger] s.drop_last()[i], height));
        lemma_count_all(s.drop_last(), height);
        assert(s[s.len() - 1] == s.last());
    }
}

proof fn lemma_moved_zero_dt(s: Seq<Entity>, sp: int)
    requires
        all_in_range(s),
    ensures
        moved(s, sp, 0) == s,
{
    assert forall|k: int| 0 <= k < moved(s, sp, 0).len() implies #[trigger] moved(s, sp, 0)[k]
        == s[k] by {
        assert(moved(s, sp, 0)[k] == shifted(s[k], sp, 0));
        assert(clamped(s[k].y + sp * 0) == s[k].y);
    }
    assert(moved(s, sp, 0) =~= s);
}

proof fn lemma_cull_in_range(s: Seq<Entity>, others: Seq<Entity>)
    requires
        all_in_range(s),
    ensures
        all_in_range(cull_hit(s, others)),
{
    lemma_cull_elements(s, others);
    assert forall|k: int| 0 <= k < cull_hit(s, others).len() implies entity_in_range(
        #[trigger] cull_hit(s, others)[k],
    ) by {
        assert(s.contains(cull_hit(s, others)[k]));
        let w = choose|w: int| 0 <= w < s.len() && s[w] == cull_hit(s, others)[k];
        assert(entity_in_range(s[w]));
    }
}

proof fn lemma_onscreen_bullets_elements(s: Seq<Entity>)
    ensures
        forall|k: int| 0 <= k < onscreen_bullets(s).len() ==> s.contains(
            #[trigger] onscreen_bullets(s)[k],
        ),
    decreases s.len(),
{
    if s.len() > 0 {
        lemma_onscreen_bullets_elements(s.drop_last());
        let rest = onscreen_bullets(s.drop_last());
        assert forall|k: int| 0 <= k < onscreen_bullets(s).len() implies s.contains(
            #[trigger] onscreen_bullets(s)[k],
        ) by {
            if k < rest.len() {
                assert(onscreen_bullets(s)[k] == rest[k]);
                assert(s.drop_last().contains(rest[k]));
                let w = choose|w: int|
                    0 <= w < s.drop_last().len() && s.drop_last()[w] == rest[k];
                assert(s[w] == rest[k]);
            } else {
                assert(onscreen_bullets(s)[k] == s.last());
                assert(s[s.len() - 1] == s.last());
            }
        }
    }
}

proof fn lemma_onscreen_enemies_elements(s: Seq<Entity>, height: int)
    ensures
        forall|k: int|
            0 <= k < onscreen_enemies(s, height).len() ==> s.contains(
                #[trigger] onscreen_enemies(s, height)[k],
            ),
    decreases s.len(),
{
    if s.len() > 0 {
        lemma_onscreen_enemies_elements(s.drop_last(), height);
        let rest = onscreen_enemies(s.drop_last(), height);
        assert forall|k: int| 0 <= k < onscreen_enemies(s, height).len() implies s.contains(
            #[trigger] onscreen_enemies(s, height)[k],
        ) by {
            if k < rest.len() {
                assert(onscreen_enemies(s, height)[k] == rest[k]);
                assert(s.drop_last().contains(rest[k]));
                let w = choose|w: int|
                    0 <= w < s.drop_last().len() && s.drop_last()[w] == rest[k];
                assert(s[w] == rest[k]);
            } else {
                assert(onscreen_enemies(s, height)[k] == s.last());
                assert(s[s.len() - 1] == s.last());
            }
        }
    }
}

proof fn lemma_close_symmetric(a: Entity, b: Entity)
    ensures
        close(a, b) == close(b, a),
{
    assert((a.x - b.x) * (a.x - b.x) == (b.x - a.x) * (b.x - a.x)) by (nonlinear_arith);
    assert((a.y - b.y) * (a.y - b.y) == (b.y - a.y) * (b.y - a.y)) by (nonlinear_arith);
}

/// With no key held, nothing in flight, and an elapsed time that does not
/// carry the spawn timer past its interval, a step changes nothing visible:
/// the player stays in place and both collections stay empty.
pub proof fn lemma_idle_step(pre: Game, post: Game, dt: int, sx: i64)
    requires
        step_rel(pre, post, dt, sx),
        well_formed(pre),
        pre.key_state is None,
        pre.bullets@.len() == 0,
        pre.enemies@.len() == 0,
        0 <= dt,
        clamped(pre.enemy_spawn_timer + dt) <= ENEMY_SPAWN_INTERVAL,
    ensures
        post.player == pre.player,
        post.bullets@.len() == 0,
        post.enemies@.len() == 0,
{
    let bullets1 = moved(pre.bullets@, -BULLET_SPEED as int, dt);
    let enemies2 = moved(pre.enemies@, ENEMY_SPEED as int, dt);
    lemma_cull_len(bullets1, enemies2);
    lemma_cull_len(enemies2, bullets1);
    lemma_onscreen_bullets_len(moved(cull_hit(bullets1, enemies2), -BULLET_SPEED as int, dt));
    lemma_onscreen_enemies_len(
        moved(cull_hit(enemies2, bullets1), ENEMY_SPEED as int, dt),
        pre.window_height as int,
    );
}

proof fn lemma_onscreen_enemies_len(s: Seq<Entity>, height: int)
    ensures
        onscreen_enemies(s, height).len() <= s.len(),
    decreases s.len(),
{
    if s.len() > 0 {
        lemma_onscreen_enemies_len(s.drop_last(), height);
    }
}

/// A step never creates a bullet; only a fire key-down does.
pub proof fn lemma_step_adds_no_bullets(pre: Game, post: Game, dt: int, sx: i64)
    requires
        step_rel(pre, post, dt, sx),
    ensures
        post.bullets@.len() <= pre.bullets@.len(),
{
    let bullets1 = moved(pre.bullets@, -BULLET_SPEED as int, dt);
    let enemies1 = if clamped(pre.enemy_spawn_timer + dt) > ENEMY_SPAWN_INTERVAL {
        pre.enemies@.push(Entity { x: sx, y: 0 })
    } else {
        pre.enemies@
    };
    let enemies2 = moved(enemies1, ENEMY_SPEED as int, dt);
    lemma_cull_len(bullets1, enemies2);
    lemma_onscreen_bullets_len(moved(cull_hit(bullets1, enemies2), -BULLET_SPEED as int, dt));
}

/// With a movement key held, a step shifts the player horizontally by
/// exactly the player speed times the elapsed time; any other held key, or
/// none, leaves the player in place. Stated away from the ground-breach
/// reset (no enemies to breach) and away from the clamp at the edge of the
/// representable range.
pub proof fn lemma_held_key_movement(pre: Game, post: Game, dt: int, sx: i64)
    requires
        step_rel(pre, post, dt, sx),
        well_formed(pre),
        pre.enemies@.len() == 0,
        in_range(pre.player.x - PLAYER_SPEED * dt),
        in_range(pre.player.x + PLAYER_SPEED * dt),
    ensures
        pre.key_state == Some(Key::MoveRight) ==> post.player.x == pre.player.x + PLAYER_SPEED
            * dt,
        pre.key_state == Some(Key::MoveLeft) ==> post.player.x == pre.player.x - PLAYER_SPEED
            * dt,
        pre.key_state != Some(Key::MoveRight) && pre.key_state != Some(Key::MoveLeft)
            ==> post.player.x == pre.player.x,
        post.player.y == pre.player.y,
{
    let bullets1 = moved(pre.bullets@, -BULLET_SPEED as int, dt);
    let enemies1 = if clamped(pre.enemy_spawn_timer + dt) > ENEMY_SPAWN_INTERVAL {
        pre.enemies@.push(Entity { x: sx, y: 0 })
    } else {
        pre.enemies@
    };
    let enemies2 = moved(enemies1, ENEMY_SPEED as int, dt);
    let enemies3 = cull_hit(enemies2, bullets1);
    lemma_cull_len(enemies2, bullets1);
    lemma_count_bounds(enemies3, pre.window_height as int);
    assert(count_on_ground(enemies3, pre.window_height as int) < MAX_ENEMIES_ON_GROUND);
}

/// A bullet and an enemy whose centers lie strictly within the collision
/// distance are both removed by the collision pass, each exactly once,
/// however many partners either of them collided with.
pub proof fn lemma_collision_culls(bs: Seq<Entity>, es: Seq<Entity>, i: int, j: int)
    requires
        0 <= i < bs.len(),
        0 <= j < es.len(),
        close(bs[i], es[j]),
    ensures
        !cull_hit(bs, es).contains(bs[i]),
        !cull_hit(es, bs).contains(es[j]),
{
    assert(hits_some(bs[i], es));
    lemma_cull_excludes(bs, es, bs[i]);
    lemma_close_symmetric(bs[i], es[j]);
    assert(hits_some(es[j], bs));
    lemma_cull_excludes(es, bs, es[j]);
}

/// An entity that collides with nothing survives the collision pass; in
/// particular a pair at or beyond the collision distance removes neither
/// member by itself.
pub proof fn lemma_no_collision_survives(s: Seq<Entity>, others: Seq<Entity>, i: int)
    requires
        0 <= i < s.len(),
        !hits_some(s[i], others),
    ensures
        cull_hit(s, others).contains(s[i]),
    decreases s.len(),
{
    let rest = cull_hit(s.drop_last(), others);
    if i == s.len() - 1 {
        assert(s[i] == s.last());
        assert(cull_hit(s, others) == rest.push(s.last()));
        assert(cull_hit(s, others)[rest.len() as int] == s[i]);
    } else {
        assert(s.drop_last()[i] == s[i]);
        lemma_no_collision_survives(s.drop_last(), others, i);
        let k = choose|k: int| 0 <= k < rest.len() && rest[k] == s[i];
        assert(cull_hit(s, others)[k] == s[i]);
    }
}

/// Across a whole step that adds no time, a bullet and an enemy whose
/// centers lie strictly within the collision distance are both absent from
/// their collections afterwards. Stated for a spawn timer within its
/// interval, so the entities compared are exactly those placed beforehand.
pub proof fn lemma_collision_step(pre: Game, post: Game, sx: i64, i: int, j: int)
    requires
        step_rel(pre, post, 0, sx),
        well_formed(pre),
        pre.enemy_spawn_timer <= ENEMY_SPAWN_INTERVAL,
        0 <= i < pre.bullets@.len(),
        0 <= j < pre.enemies@.len(),
        close(pre.bullets@[i], pre.enemies@[j]),
    ensures
        !post.bullets@.contains(pre.bullets@[i]),
        !post.enemies@.contains(pre.enemies@[j]),
{
    let b = pre.bullets@[i];
    let e = pre.enemies@[j];
    assert(clamped(pre.enemy_spawn_timer + 0) == pre.enemy_spawn_timer);
    lemma_moved_zero_dt(pre.bullets@, -BULLET_SPEED as int);
    lemma_moved_zero_dt(pre.enemies@, ENEMY_SPEED as int);
    let bullets2 = cull_hit(pre.bullets@, pre.enemies@);
    let enemies3 = cull_hit(pre.enemies@, pre.bullets@);
    assert(hits_some(b, pre.enemies@));
    lemma_cull_excludes(pre.bullets@, pre.enemies@, b);
    lemma_close_symmetric(b, e);
    assert(hits_some(e, pre.bullets@));
    lemma_cull_excludes(pre.enemies@, pre.bullets@, e);
    if count_on_ground(enemies3, pre.window_height as int) >= MAX_ENEMIES_ON_GROUND {
        assert(post.bullets@.len() == 0);
        assert(post.enemies@.len() == 0);
    } else {
        lemma_cull_in_range(pre.bullets@, pre.enemies@);
        lemma_cull_in_range(pre.enemies@, pre.bullets@);
        lemma_moved_zero_dt(bullets2, -BULLET_SPEED as int);
        lemma_moved_zero_dt(enemies3, ENEMY_SPEED as int);
        lemma_onscreen_bullets_elements(bullets2);
        lemma_onscreen_enemies_elements(enemies3, pre.window_height as int);
        if post.bullets@.contains(b) {
            let k = choose|k: int| 0 <= k < post.bullets@.len() && post.bullets@[k] == b;
            assert(bullets2.contains(post.bullets@[k]));
        }
        if post.enemies@.contains(e) {
            let k = choose|k: int| 0 <= k < post.enemies@.len() && post.enemies@[k] == e;
            assert(enemies3.contains(post.enemies@[k]));
        }
    }
}

/// After a step, every bullet still listed is strictly below the top edge
/// and every enemy strictly above the bottom edge: whatever crossed either
/// edge is gone.
pub proof fn lemma_offscreen_culled(pre: Game, post: Game, dt: int, sx: i64)
    requires
        step_rel(pre, post, dt, sx),
    ensures
        forall|k: int| 0 <= k < post.bullets@.len() ==> #[trigger] post.bullets@[k].y > 0,
        forall|k: int| 0 <= k < post.enemies@.len() ==> #[trigger] post.enemies@[k].y
            < post.window_height,
{
    let bullets1 = moved(pre.bullets@, -BULLET_SPEED as int, dt);
    let enemies1 = if clamped(pre.enemy_spawn_timer + dt) > ENEMY_SPAWN_INTERVAL {
        pre.enemies@.push(Entity { x: sx, y: 0 })
    } else {
        pre.enemies@
    };
    let enemies2 = moved(enemies1, ENEMY_SPEED as int, dt);
    lemma_onscreen_bullets_pos(moved(cull_hit(bullets1, enemies2), -BULLET_SPEED as int, dt));
    lemma_onscreen_enemies_bound(
        moved(cull_hit(enemies2, bullets1), ENEMY_SPEED as int, dt),
        pre.window_height as int,
    );
}

/// Enough enemies already sitting in the grounded band force a full reset
/// within the same step: player re-centered, nothing in flight, timer
/// zeroed. Stated for a step that adds no time, so the grounded enemies
/// stay exactly where they were placed.
pub proof fn lemma_ground_breach_resets(pre: Game, post: Game, sx: i64)
    requires
        step_rel(pre, post, 0, sx),
        well_formed(pre),
        pre.bullets@.len() == 0,
        pre.enemies@.len() >= MAX_ENEMIES_ON_GROUND,
        forall|k: int| 0 <= k < pre.enemies@.len() ==> #[trigger] pre.enemies@[k].y
            == pre.window_height - EDGE_MARGIN,
        pre.enemy_spawn_timer <= ENEMY_SPAWN_INTERVAL,
    ensures
        is_reset(pre, post),
{
    let bullets1 = moved(pre.bullets@, -BULLET_SPEED as int, 0);
    let enemies2 = moved(pre.enemies@, ENEMY_SPEED as int, 0);
    assert(clamped(pre.enemy_spawn_timer + 0) == pre.enemy_spawn_timer);
    assert forall|k: int| 0 <= k < enemies2.len() implies #[trigger] enemies2[k]
        == pre.enemies@[k] by {
        assert(enemies2[k] == shifted(pre.enemies@[k], ENEMY_SPEED as int, 0));
        assert(clamped(pre.enemies@[k].y + ENEMY_SPEED * 0) == pre.enemies@[k].y);
    }
    assert(enemies2 =~= pre.enemies@);
    assert(bullets1.len() == 0);
    assert(forall|i: int| 0 <= i < enemies2.len() ==> !hits_some(#[trigger] enemies2[i], bullets1));
    lemma_cull_all_kept(enemies2, bullets1);
    assert(forall|i: int|
        0 <= i < pre.enemies@.len() ==> on_ground(
            #[trigger] pre.enemies@[i],
            pre.window_height as int,
        ));
    lemma_count_all(pre.enemies@, pre.window_height as int);
}

/// With nothing in flight, a step whose elapsed time carries the spawn timer
/// past its interval releases exactly one enemy: at the given horizontal
/// coordinate, fallen from the top edge by two integration passes, with the
/// timer started over. A step that stays within the interval releases none
/// and keeps the accumulated time. Stated for an enemy that does not cross
/// the bottom edge within the same step.
pub proof fn lemma_spawn_cadence(pre: Game, post: Game, dt: int, sx: i64)
    requires
        step_rel(pre, post, dt, sx),
        well_formed(pre),
        pre.bullets@.len() == 0,
        pre.enemies@.len() == 0,
        0 <= dt,
        2 * ENEMY_SPEED * dt < pre.window_height,
    ensures
        clamped(pre.enemy_spawn_timer + dt) > ENEMY_SPAWN_INTERVAL ==> post.enemies@.len() == 1,
        clamped(pre.enemy_spawn_timer + dt) > ENEMY_SPAWN_INTERVAL ==> post.enemies@[0].x == sx,
        clamped(pre.enemy_spawn_timer + dt) > ENEMY_SPAWN_INTERVAL ==> post.enemies@[0].y == 2
            * ENEMY_SPEED * dt,
        clamped(pre.enemy_spawn_timer + dt) > ENEMY_SPAWN_INTERVAL ==> post.enemy_spawn_timer
            == 0,
        clamped(pre.enemy_spawn_timer + dt) <= ENEMY_SPAWN_INTERVAL ==> post.enemies@.len() == 0,
        clamped(pre.enemy_spawn_timer + dt) <= ENEMY_SPAWN_INTERVAL ==> post.enemy_spawn_timer
            == clamped(pre.enemy_spawn_timer + dt),
{
    let t1 = clamped(pre.enemy_spawn_timer + dt);
    let bullets1 = moved(pre.bullets@, -BULLET_SPEED as int, dt);
    assert(bullets1.len() == 0);
    if t1 > ENEMY_SPAWN_INTERVAL {
        let spawned = Entity { x: sx, y: 0 };
        let enemies1 = pre.enemies@.push(spawned);
        let enemies2 = moved(enemies1, ENEMY_SPEED as int, dt);
        assert(enemies1.len() == 1);
        assert(enemies1[0] == spawned);
        assert(enemies2[0] == shifted(spawned, ENEMY_SPEED as int, dt));
        assert(0 <= ENEMY_SPEED * dt && ENEMY_SPEED * dt + ENEMY_SPEED * dt == 2 * ENEMY_SPEED
            * dt) by (nonlinear_arith)
            requires
                0 <= dt,
                0 <= ENEMY_SPEED,
        ;
        assert(clamped(0 + ENEMY_SPEED * dt) == ENEMY_SPEED * dt);
        assert(forall|i: int|
            0 <= i < enemies2.len() ==> !hits_some(#[trigger] enemies2[i], bullets1));
        lemma_cull_all_kept(enemies2, bullets1);
        lemma_count_bounds(enemies2, pre.window_height as int);
        let enemies4 = moved(enemies2, ENEMY_SPEED as int, dt);
        assert(enemies4[0] == shifted(enemies2[0], ENEMY_SPEED as int, dt));
        assert(clamped(ENEMY_SPEED * dt + ENEMY_SPEED * dt) == 2 * ENEMY_SPEED * dt);
        assert(forall|i: int| 0 <= i < enemies4.len() ==> #[trigger] enemies4[i].y
            < pre.window_height);
        lemma_onscreen_enemies_all(enemies4, pre.window_height as int);
    } else {
        let enemies2 = moved(pre.enemies@, ENEMY_SPEED as int, dt);
        assert(enemies2.len() == 0);
        lemma_cull_all_kept(enemies2, bullets1);
        lemma_count_bounds(enemies2, pre.window_height as int);
        let enemies4 = moved(cull_hit(enemies2, bullets1), ENEMY_SPEED as int, dt);
        assert(enemies4.len() == 0);
        lemma_onscreen_enemies_len(enemies4, pre.window_height as int);
    }
}

} // verus!

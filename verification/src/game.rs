//! The simulation state and its per-frame transition.
//!
//! Coordinates are subpixels (1/1000 of a pixel), time is milliseconds, so a
//! speed in pixels per second is numerically a speed in subpixels per
//! millisecond. Every arithmetic step clamps into the coordinate range, so
//! the transition is total for every `dt`, including negative or huge ones.

use vstd::prelude::*;

use crate::clamp_add;
use crate::clamp_wide;
use crate::clamped;
use crate::rng::random_below;
use crate::COORD_LIMIT;

verus! {

/// Horizontal player speed, in subpixels per millisecond.
pub const PLAYER_SPEED: i64 = 220;

/// Upward bullet speed, in subpixels per millisecond.
pub const BULLET_SPEED: i64 = 300;

/// Downward enemy speed, in subpixels per millisecond.
pub const ENEMY_SPEED: i64 = 50;

/// The spawn timer releases an enemy once it passes this many milliseconds.
pub const ENEMY_SPAWN_INTERVAL: i64 = 1300;

/// The player sits this far above the bottom edge; bullets leave the muzzle
/// this far above the player; enemies this close to the bottom edge count as
/// grounded. All three are the same 20-pixel margin, in subpixels.
pub const EDGE_MARGIN: i64 = 20_000;

/// Squared collision distance: 10 pixels, in squared subpixels.
pub const COLLISION_RANGE_SQ: i64 = 100_000_000;

/// This many grounded enemies force a full reset.
pub const MAX_ENEMIES_ON_GROUND: usize = 5;

/// A position in the playfield, in subpixels; origin top-left, y grows down.
#[derive(Clone, Copy, PartialEq, Eq, Structural, Debug)]
pub struct Entity {
    pub x: i64,
    pub y: i64,
}

/// The input alphabet: the two movement keys, the fire key, and every other
/// key collapsed into one variant that is held but has no effect.
#[derive(Clone, Copy, PartialEq, Eq, Structural, Debug)]
pub enum Key {
    MoveLeft,
    MoveRight,
    Fire,
    Other,
}

/// The whole simulation: one player, the projectiles and enemies in flight,
/// the spawn timer, the playfield size, and the currently held key.
pub struct Game {
    pub player: Entity,
    pub bullets: Vec<Entity>,
    pub enemies: Vec<Entity>,
    pub enemy_spawn_timer: i64,
    pub window_width: i64,
    pub window_height: i64,
    pub key_state: Option<Key>,
}

/// A coordinate or timer value the simulation can represent.
pub open spec fn in_range(v: int) -> bool {
    -COORD_LIMIT <= v <= COORD_LIMIT
}

pub open spec fn entity_in_range(e: Entity) -> bool {
    in_range(e.x as int) && in_range(e.y as int)
}

pub open spec fn all_in_range(s: Seq<Entity>) -> bool {
    forall|i: int| 0 <= i < s.len() ==> entity_in_range(#[trigger] s[i])
}

/// Well-formedness of a game state: a positive, representable playfield and
/// every coordinate and the timer inside the representable range.
pub open spec fn well_formed(g: Game) -> bool {
    &&& 1 <= g.window_width <= COORD_LIMIT
    &&& 1 <= g.window_height <= COORD_LIMIT
    &&& entity_in_range(g.player)
    &&& all_in_range(g.bullets@)
    &&& all_in_range(g.enemies@)
    &&& in_range(g.enemy_spawn_timer as int)
}

/// An entity after one integration pass at vertical speed `sp`.
pub open spec fn shifted(e: Entity, sp: int, dt: int) -> Entity {
    Entity { x: e.x, y: clamped(e.y + sp * dt) as i64 }
}

/// A whole collection after one integration pass.
pub open spec fn moved(s: Seq<Entity>, sp: int, dt: int) -> Seq<Entity> {
    s.map(|i: int, e: Entity| shifted(e, sp, dt))
}

/// Centers strictly closer than the collision distance.
pub open spec fn close(a: Entity, b: Entity) -> bool {
    (a.x - b.x) * (a.x - b.x) + (a.y - b.y) * (a.y - b.y) < COLLISION_RANGE_SQ
}

/// Whether `e` collides with any member of `others`.
pub open spec fn hits_some(e: Entity, others: Seq<Entity>) -> bool {
    exists|i: int| 0 <= i < others.len() && close(e, #[trigger] others[i])
}

/// The members of `s` that collide with no member of `others`, in order.
/// Every colliding pair marks both of its members, and each marked entity is
/// removed once, however many partners it collided with.
pub open spec fn cull_hit(s: Seq<Entity>, others: Seq<Entity>) -> Seq<Entity>
    decreases s.len(),
{
    if s.len() == 0 {
        Seq::empty()
    } else {
        let rest = cull_hit(s.drop_last(), others);
        if hits_some(s.last(), others) {
            rest
        } else {
            rest.push(s.last())
        }
    }
}

/// The bullets still on screen: strictly below the top edge.
pub open spec fn onscreen_bullets(s: Seq<Entity>) -> Seq<Entity>
    decreases s.len(),
{
    if s.len() == 0 {
        Seq::empty()
    } else {
        let rest = onscreen_bullets(s.drop_last());
        if s.last().y > 0 {
            rest.push(s.last())
        } else {
            rest
        }
    }
}

/// The enemies still on screen: strictly above the bottom edge.
pub open spec fn onscreen_enemies(s: Seq<Entity>, height: int) -> Seq<Entity>
    decreases s.len(),
{
    if s.len() == 0 {
        Seq::empty()
    } else {
        let rest = onscreen_enemies(s.drop_last(), height);
        if s.last().y < height {
            rest.push(s.last())
        } else {
            rest
        }
    }
}

/// Whether an enemy has reached the grounded band at the bottom edge.
pub open spec fn on_ground(e: Entity, height: int) -> bool {
    e.y >= height - EDGE_MARGIN
}

/// How many enemies have reached the grounded band.
pub open spec fn count_on_ground(s: Seq<Entity>, height: int) -> int
    decreases s.len(),
{
    if s.len() == 0 {
        0
    } else {
        count_on_ground(s.drop_last(), height) + if on_ground(s.last(), height) {
            1int
        } else {
            0int
        }
    }
}

/// The player after the held key is applied for `dt` milliseconds.
pub open spec fn moved_player(p: Entity, k: Option<Key>, dt: int) -> Entity {
    if k == Some(Key::MoveLeft) {
        Entity { x: clamped(p.x - PLAYER_SPEED * dt) as i64, y: p.y }
    } else if k == Some(Key::MoveRight) {
        Entity { x: clamped(p.x + PLAYER_SPEED * dt) as i64, y: p.y }
    } else {
        p
    }
}

/// The bullet a fire event emits: at the muzzle, just above the player.
pub open spec fn fired_bullet(p: Entity) -> Entity {
    Entity { x: p.x, y: clamped(p.y - EDGE_MARGIN) as i64 }
}

/// A freshly constructed state: player centered just above the bottom edge,
/// nothing in flight, timer zeroed, no key held.
pub open spec fn is_initial(g: Game, w: int, h: int) -> bool {
    &&& g.window_width == w
    &&& g.window_height == h
    &&& g.player.x == w / 2
    &&& g.player.y == h - EDGE_MARGIN
    &&& g.bullets@ == Seq::<Entity>::empty()
    &&& g.enemies@ == Seq::<Entity>::empty()
    &&& g.enemy_spawn_timer == 0
    &&& g.key_state is None
}

/// A full reset: construction re-run on the same playfield, with the held
/// key carried over untouched.
pub open spec fn is_reset(pre: Game, post: Game) -> bool {
    &&& post.window_width == pre.window_width
    &&& post.window_height == pre.window_height
    &&& post.player.x == pre.window_width / 2
    &&& post.player.y == pre.window_height - EDGE_MARGIN
    &&& post.bullets@ == Seq::<Entity>::empty()
    &&& post.enemies@ == Seq::<Entity>::empty()
    &&& post.enemy_spawn_timer == 0
    &&& post.key_state == pre.key_state
}

/// The whole per-frame transition, from `pre` to `post`, over elapsed time
/// `dt` and spawn coordinate `sx` (used only when the timer releases an
/// enemy). In order: the player moves by the held key; the timer advances
/// and may spawn one enemy at `(sx, 0)`; bullets and enemies integrate once;
/// every colliding bullet-enemy pair marks both members and the marked ones
/// are removed; if enough survivors are grounded the state resets; otherwise
/// bullets and enemies integrate a second time and whatever left the screen
/// is dropped.
pub open spec fn step_rel(pre: Game, post: Game, dt: int, sx: i64) -> bool {
    let player1 = moved_player(pre.player, pre.key_state, dt);
    let timer1 = clamped(pre.enemy_spawn_timer + dt);
    let spawn = timer1 > ENEMY_SPAWN_INTERVAL;
    let enemies1 = if spawn {
        pre.enemies@.push(Entity { x: sx, y: 0 })
    } else {
        pre.enemies@
    };
    let timer2: int = if spawn {
        0
    } else {
        timer1
    };
    let bullets1 = moved(pre.bullets@, -BULLET_SPEED as int, dt);
    let enemies2 = moved(enemies1, ENEMY_SPEED as int, dt);
    let bullets2 = cull_hit(bullets1, enemies2);
    let enemies3 = cull_hit(enemies2, bullets1);
    if count_on_ground(enemies3, pre.window_height as int) >= MAX_ENEMIES_ON_GROUND {
        is_reset(pre, post)
    } else {
        &&& post.player == player1
        &&& post.enemy_spawn_timer == timer2
        &&& post.bullets@ == onscreen_bullets(moved(bullets2, -BULLET_SPEED as int, dt))
        &&& post.enemies@ == onscreen_enemies(
            moved(enemies3, ENEMY_SPEED as int, dt),
            pre.window_height as int,
        )
        &&& post.window_width == pre.window_width
        &&& post.window_height == pre.window_height
        &&& post.key_state == pre.key_state
    }
}

proof fn lemma_cull_take_step(s: Seq<Entity>, others: Seq<Entity>, i: int)
    requires
        0 <= i < s.len(),
    ensures
        cull_hit(s.take(i + 1), others) == if hits_some(s[i], others) {
            cull_hit(s.take(i), others)
        } else {
            cull_hit(s.take(i), others).push(s[i])
        },
{
    assert(s.take(i + 1).drop_last() =~= s.take(i));
    assert(s.take(i + 1).last() == s[i]);
}

proof fn lemma_onscreen_bullets_take_step(s: Seq<Entity>, i: int)
    requires
        0 <= i < s.len(),
    ensures
        onscreen_bullets(s.take(i + 1)) == if s[i].y > 0 {
            onscreen_bullets(s.take(i)).push(s[i])
        } else {
            onscreen_bullets(s.take(i))
        },
{
    assert(s.take(i + 1).drop_last() =~= s.take(i));
    assert(s.take(i + 1).last() == s[i]);
}

proof fn lemma_onscreen_enemies_take_step(s: Seq<Entity>, height: int, i: int)
    requires
        0 <= i < s.len(),
    ensures
        onscreen_enemies(s.take(i + 1), height) == if s[i].y < height {
            onscreen_enemies(s.take(i), height).push(s[i])
        } else {
            onscreen_enemies(s.take(i), height)
        },
{
    assert(s.take(i + 1).drop_last() =~= s.take(i));
    assert(s.take(i + 1).last() == s[i]);
}

proof fn lemma_count_take_step(s: Seq<Entity>, height: int, i: int)
    requires
        0 <= i < s.len(),
    ensures
        count_on_ground(s.take(i + 1), height) == count_on_ground(s.take(i), height)
            + if on_ground(s[i], height) {
            1int
        } else {
            0int
        },
{
    assert(s.take(i + 1).drop_last() =~= s.take(i));
    assert(s.take(i + 1).last() == s[i]);
}

/// One coordinate after one integration pass, clamped.
fn shift_coord(v: i64, sp: i64, dt: i64) -> (r: i64)
    requires
        -300 <= sp <= 300,
    ensures
        r == clamped(v + sp * dt),
{
    proof {
        assert((sp as int) * (dt as int) <= 3_000_000_000_000_000_000_000 && (sp as int) * (
        dt as int) >= -3_000_000_000_000_000_000_000) by (nonlinear_arith)
            requires
                -300 <= sp as int <= 300,
                i64::MIN as int <= dt as int <= i64::MAX as int,
        ;
    }
    let delta: i128 = (sp as i128) * (dt as i128);
    clamp_wide(v as i128 + delta)
}

/// A whole collection after one integration pass at vertical speed `sp`.
fn advanced(src: &Vec<Entity>, sp: i64, dt: i64) -> (r: Vec<Entity>)
    requires
        -300 <= sp <= 300,
        all_in_range(src@),
    ensures
        r@ == moved(src@, sp as int, dt as int),
        all_in_range(r@),
{
    let mut out: Vec<Entity> = Vec::new();
    let mut i: usize = 0;
    while i < src.len()
        invariant
            i <= src.len(),
            -300 <= sp <= 300,
            all_in_range(src@),
            all_in_range(out@),
            out@.len() == i,
            forall|j: int| 0 <= j < i ==> out@[j] == shifted(src@[j], sp as int, dt as int),
        decreases src.len() - i,
    {
        let e = src[i];
        let ny = shift_coord(e.y, sp, dt);
        out.push(Entity { x: e.x, y: ny });
        i += 1;
    }
    proof {
        assert(out@ =~= moved(src@, sp as int, dt as int));
    }
    out
}

/// Whether `e` collides with any member of `others`.
fn hits_any(e: &Entity, others: &Vec<Entity>) -> (r: bool)
    requires
        entity_in_range(*e),
        all_in_range(others@),
    ensures
        r == hits_some(*e, others@),
{
    let mut i: usize = 0;
    while i < others.len()
        invariant
            i <= others.len(),
            entity_in_range(*e),
            all_in_range(others@),
            forall|j: int| 0 <= j < i ==> !close(*e, #[trigger] others@[j]),
        decreases others.len() - i,
    {
        let o = others[i];
        let dx = e.x - o.x;
        let dy = e.y - o.y;
        proof {
            assert(dx * dx <= 4_000_000_000_000_000_000 && dx * dx >= 0) by (nonlinear_arith)
                requires
                    -2_000_000_000 <= dx as int <= 2_000_000_000,
            ;
            assert(dy * dy <= 4_000_000_000_000_000_000 && dy * dy >= 0) by (nonlinear_arith)
                requires
                    -2_000_000_000 <= dy as int <= 2_000_000_000,
            ;
        }
        let dd = dx * dx + dy * dy;
        if dd < COLLISION_RANGE_SQ {
            return true;
        }
        i += 1;
    }
    false
}

/// The members of `src` that collide with no member of `others`, in order.
fn cull_collided(src: &Vec<Entity>, others: &Vec<Entity>) -> (r: Vec<Entity>)
    requires
        all_in_range(src@),
        all_in_range(others@),
    ensures
        r@ == cull_hit(src@, others@),
        all_in_range(r@),
{
    let mut out: Vec<Entity> = Vec::new();
    let mut i: usize = 0;
    proof {
        assert(src@.take(0) =~= Seq::<Entity>::empty());
    }
    while i < src.len()
        invariant
            i <= src.len(),
            all_in_range(src@),
            all_in_range(others@),
            all_in_range(out@),
            out@ == cull_hit(src@.take(i as int), others@),
        decreases src.len() - i,
    {
        let e = src[i];
        proof {
            lemma_cull_take_step(src@, others@, i as int);
        }
        if !hits_any(&e, others) {
            out.push(e);
        }
        i += 1;
    }
    proof {
        assert(src@.take(src@.len() as int) =~= src@);
    }
    out
}

/// How many enemies have reached the grounded band.
fn count_ground(es: &Vec<Entity>, height: i64) -> (n: usize)
    requires
        in_range(height as int),
    ensures
        n == count_on_ground(es@, height as int),
{
    let mut n: usize = 0;
    let mut i: usize = 0;
    proof {
        assert(es@.take(0) =~= Seq::<Entity>::empty());
    }
    while i < es.len()
        invariant
            i <= es.len(),
            n <= i,
            in_range(height as int),
            n == count_on_ground(es@.take(i as int), height as int),
        decreases es.len() - i,
    {
        let e = es[i];
        proof {
            lemma_count_take_step(es@, height as int, i as int);
        }
        if e.y >= height - EDGE_MARGIN {
            n += 1;
        }
        i += 1;
    }
    proof {
        assert(es@.take(es@.len() as int) =~= es@);
    }
    n
}

/// The bullets still on screen, in order.
fn keep_onscreen_bullets(src: &Vec<Entity>) -> (r: Vec<Entity>)
    requires
        all_in_range(src@),
    ensures
        r@ == onscreen_bullets(src@),
        all_in_range(r@),
{
    let mut out: Vec<Entity> = Vec::new();
    let mut i: usize = 0;
    proof {
        assert(src@.take(0) =~= Seq::<Entity>::empty());
    }
    while i < src.len()
        invariant
            i <= src.len(),
            all_in_range(src@),
            all_in_range(out@),
            out@ == onscreen_bullets(src@.take(i as int)),
        decreases src.len() - i,
    {
        let e = src[i];
        proof {
            lemma_onscreen_bullets_take_step(src@, i as int);
        }
        if e.y > 0 {
            out.push(e);
        }
        i += 1;
    }
    proof {
        assert(src@.take(src@.len() as int) =~= src@);
    }
    out
}

/// The enemies still on screen, in order.
fn keep_onscreen_enemies(src: &Vec<Entity>, height: i64) -> (r: Vec<Entity>)
    requires
        all_in_range(src@),
    ensures
        r@ == onscreen_enemies(src@, height as int),
        all_in_range(r@),
{
    let mut out: Vec<Entity> = Vec::new();
    let mut i: usize = 0;
    proof {
        assert(src@.take(0) =~= Seq::<Entity>::empty());
    }
    while i < src.len()
        invariant
            i <= src.len(),
            all_in_range(src@),
            all_in_range(out@),
            out@ == onscreen_enemies(src@.take(i as int), height as int),
        decreases src.len() - i,
    {
        let e = src[i];
        proof {
            lemma_onscreen_enemies_take_step(src@, height as int, i as int);
        }
        if e.y < height {
            out.push(e);
        }
        i += 1;
    }
    proof {
        assert(src@.take(src@.len() as int) =~= src@);
    }
    out
}

impl Game {
    /// A fresh simulation on a playfield of the given size, in subpixels.
    pub fn new(window_width: i64, window_height: i64) -> (g: Game)
        requires
            1 <= window_width <= COORD_LIMIT,
            1 <= window_height <= COORD_LIMIT,
        ensures
            is_initial(g, window_width as int, window_height as int),
            well_formed(g),
    {
        let g = Game {
            player: Entity { x: window_width / 2, y: window_height - EDGE_MARGIN },
            bullets: Vec::new(),
            enemies: Vec::new(),
            enemy_spawn_timer: 0,
            window_width,
            window_height,
            key_state: None,
        };
        proof {
            assert(g.bullets@ =~= Seq::<Entity>::empty());
            assert(g.enemies@ =~= Seq::<Entity>::empty());
        }
        g
    }

    /// Record `key` as held, replacing whatever was held before, and if it is
    /// the fire key emit one bullet at the muzzle, just above the player.
    pub fn key_pressed(&mut self, key: Key)
        requires
            well_formed(*old(self)),
        ensures
            well_formed(*final(self)),
            final(self).key_state == Some(key),
            key == Key::Fire ==> final(self).bullets@ == old(self).bullets@.push(
                fired_bullet(old(self).player),
            ),
            key != Key::Fire ==> final(self).bullets@ == old(self).bullets@,
            final(self).player == old(self).player,
            final(self).enemies@ == old(self).enemies@,
            final(self).enemy_spawn_timer == old(self).enemy_spawn_timer,
            final(self).window_width == old(self).window_width,
            final(self).window_height == old(self).window_height,
    {
        self.key_state = Some(key);
        match key {
            Key::Fire => {
                let ny = clamp_add(self.player.y, -EDGE_MARGIN);
                let b = Entity { x: self.player.x, y: ny };
                self.bullets.push(b);
            },
            _ => {},
        }
    }

    /// Clear the held key, whatever key was released.
    pub fn key_released(&mut self, _key: Key)
        ensures
            final(self).key_state is None,
            final(self).player == old(self).player,
            final(self).bullets@ == old(self).bullets@,
            final(self).enemies@ == old(self).enemies@,
            final(self).enemy_spawn_timer == old(self).enemy_spawn_timer,
            final(self).window_width == old(self).window_width,
            final(self).window_height == old(self).window_height,
    {
        self.key_state = None;
    }

    /// Re-run construction on the same playfield: player re-centered, nothing
    /// in flight, timer zeroed. The held key is untouched.
    pub fn reset(&mut self)
        requires
            well_formed(*old(self)),
        ensures
            is_reset(*old(self), *final(self)),
            well_formed(*final(self)),
    {
        self.player = Entity {
            x: self.window_width / 2,
            y: self.window_height - EDGE_MARGIN,
        };
        self.bullets = Vec::new();
        self.enemies = Vec::new();
        self.enemy_spawn_timer = 0;
        proof {
            assert(self.bullets@ =~= Seq::<Entity>::empty());
            assert(self.enemies@ =~= Seq::<Entity>::empty());
        }
    }

    /// One frame, `dt` milliseconds long, with the spawn coordinate supplied
    /// by the caller instead of drawn at random: the whole transition is then
    /// a function of its arguments, and holds for every coordinate a caller
    /// may pass.
    pub fn update_with_spawn(&mut self, dt: i64, spawn_x: i64)
        requires
            well_formed(*old(self)),
            0 <= spawn_x < old(self).window_width,
        ensures
            well_formed(*final(self)),
            step_rel(*old(self), *final(self), dt as int, spawn_x),
    {
        let ghost pre = *old(self);

        // Horizontal player movement by the held key.
        match self.key_state {
            Some(Key::MoveLeft) => {
                let nx = shift_coord(self.player.x, -PLAYER_SPEED, dt);
                self.player = Entity { x: nx, y: self.player.y };
            },
            Some(Key::MoveRight) => {
                let nx = shift_coord(self.player.x, PLAYER_SPEED, dt);
                self.player = Entity { x: nx, y: self.player.y };
            },
            _ => {},
        }
        proof {
            assert(self.player == moved_player(pre.player, pre.key_state, dt as int));
        }

        // Advance the spawn timer; past the interval, release one enemy at
        // the top edge and start the timer over.
        let advanced_timer = clamp_add(self.enemy_spawn_timer, dt);
        if advanced_timer > ENEMY_SPAWN_INTERVAL {
            self.enemies.push(Entity { x: spawn_x, y: 0 });
            self.enemy_spawn_timer = 0;
        } else {
            self.enemy_spawn_timer = advanced_timer;
        }

        // First integration pass.
        let nb = advanced(&self.bullets, -BULLET_SPEED, dt);
        self.bullets = nb;
        let ne = advanced(&self.enemies, ENEMY_SPEED, dt);
        self.enemies = ne;

        // Every colliding bullet-enemy pair marks both members; the marked
        // ones are removed, each once.
        let culled_bullets = cull_collided(&self.bullets, &self.enemies);
        let culled_enemies = cull_collided(&self.enemies, &self.bullets);
        self.bullets = culled_bullets;
        self.enemies = culled_enemies;

        // Too many grounded enemies force a full reset and end the frame.
        let grounded = count_ground(&self.enemies, self.window_height);
        if grounded >= MAX_ENEMIES_ON_GROUND {
            self.reset();
            return ;
        }

        // Second integration pass.
        let nb2 = advanced(&self.bullets, -BULLET_SPEED, dt);
        let ne2 = advanced(&self.enemies, ENEMY_SPEED, dt);

        // Drop whatever left the screen.
        self.bullets = keep_onscreen_bullets(&nb2);
        self.enemies = keep_onscreen_enemies(&ne2, self.window_height);
    }

    /// One frame, `dt` milliseconds long. A released enemy lands at a
    /// uniformly random horizontal coordinate on the playfield.
    pub fn update(&mut self, dt: i64)
        requires
            well_formed(*old(self)),
        ensures
            well_formed(*final(self)),
            exists|sx: i64|
                0 <= sx < old(self).window_width && #[trigger] step_rel(
                    *old(self),
                    *final(self),
                    dt as int,
                    sx,
                ),
    {
        let advanced_timer = clamp_add(self.enemy_spawn_timer, dt);
        let sx = if advanced_timer > ENEMY_SPAWN_INTERVAL {
            random_below(self.window_width)
        } else {
            0
        };
        self.update_with_spawn(dt, sx);
    }

    /// Read-only copies of the player position and the bullet and enemy
    /// position lists, in order, for an external renderer.
    pub fn snapshot_for_render(&self) -> (r: (Entity, Vec<Entity>, Vec<Entity>))
        ensures
            r.0 == self.player,
            r.1@ == self.bullets@,
            r.2@ == self.enemies@,
    {
        let mut bullets: Vec<Entity> = Vec::new();
        let mut i: usize = 0;
        while i < self.bullets.len()
            invariant
                i <= self.bullets@.len(),
                bullets@ == self.bullets@.take(i as int),
            decreases self.bullets@.len() - i,
        {
            bullets.push(self.bullets[i]);
            proof {
                assert(bullets@ =~= self.bullets@.take(i + 1));
            }
            i += 1;
        }
        let mut enemies: Vec<Entity> = Vec::new();
        let mut j: usize = 0;
        while j < self.enemies.len()
            invariant
                j <= self.enemies@.len(),
                enemies@ == self.enemies@.take(j as int),
            decreases self.enemies@.len() - j,
        {
            enemies.push(self.enemies[j]);
            proof {
                assert(enemies@ =~= self.enemies@.take(j + 1));
            }
            j += 1;
        }
        proof {
            assert(self.bullets@.take(self.bullets@.len() as int) =~= self.bullets@);
            assert(self.enemies@.take(self.enemies@.len() as int) =~= self.enemies@);
        }
        (self.player, bullets, enemies)
    }
}

} // verus!

//! The game state and its per-frame transition.

use vstd::prelude::*;
use vstd::pervasive::VecAdditionalExecFns;
use crate::display::Display;
use crate::display::pix;
use crate::display::on_screen;
use crate::entity::Entity;
use crate::entity::entity_pixel;
use crate::entity::spec_overlaps;
use crate::font::Font;
use crate::font::text_covers;
use crate::label::Label;
use crate::label::digits;
use crate::pixel::Pixel;
use crate::rng::Rng;
use crate::rng::rng_next;
use crate::DISPLAY_WIDTH;
use crate::DISPLAY_HEIGHT;
use crate::FONT_CHAR_WIDTH;
use crate::FONT_CHAR_HEIGHT;
use crate::SHADOW_OFFSET;
use crate::SHADOW_COLOR_WORD;

verus! {

/// Side of the player's square.
pub const PLAYER_SIZE: i32 = 80;

/// Points awarded for each enemy a bullet destroys.
pub const PLAYER_KILL_REWARD: usize = 100;

/// Side of a bullet's square.
pub const BULLET_SIZE: i32 = 25;

/// Bullet speed in pixels per second: twice the display height.
pub const BULLET_SPEED: i32 = 1200;

/// Side of an enemy's square.
pub const ENEMY_SIZE: i32 = 100;

/// Enemy speed in pixels per second: half the display height.
pub const ENEMY_SPEED: i32 = 300;

/// Distance of the score label from the display corner.
pub const SCORE_LABEL_PADDING: i32 = 17;

/// Pixel scale of the score label.
pub const SCORE_LABEL_SCALE: i32 = 4;

/// How many bullets can be in flight at once.
pub const BULLETS_CAPACITY: usize = 5;

/// How many enemies can be alive at once.
pub const ENEMIES_CAPACITY: usize = 10;

/// Milliseconds between enemy spawns.
pub const ENEMY_SPAWN_PERIOD_MS: i32 = 1000;

/// Seed the generator starts from.
pub const RNG_DEFAULT_SEED: i32 = 123456789;

/// Packed pixel word of the background color.
pub const BACKGROUND_COLOR_WORD: u32 = 0xFF3F3F3F;

/// Packed pixel word of the player's color.
pub const PLAYER_COLOR_WORD: u32 = 0xFF8FAFDF;

/// Packed pixel word of a bullet's color.
pub const BULLET_COLOR_WORD: u32 = 0xFFB3B3EC;

/// Packed pixel word of an enemy's color.
pub const ENEMY_COLOR_WORD: u32 = 0xFFBBB87C;

/// Packed pixel word of the text color.
pub const SCORE_COLOR_WORD: u32 = 0xFFCCDCDC;

/// Pixel scale of the copyright line.
pub const COPYRIGHT_SCALE: i32 = 2;

/// Distance of the copyright line from the display corner.
pub const COPYRIGHT_PADDING: usize = 10;

/// The text of the copyright line.
pub open spec fn copyright_text() -> Seq<u8> {
    seq![77u8, 97u8, 100u8, 101u8, 32u8, 98u8, 121u8, 32u8, 84u8, 115u8, 111u8, 100u8, 105u8, 110u8, 103u8]
}

/// The copyright line as an executable byte vector.
pub fn copyright_bytes() -> (v: Vec<u8>)
    ensures
        v@ == copyright_text(),
{
    let v: Vec<u8> = vec![77, 97, 100, 101, 32, 98, 121, 32, 84, 115, 111, 100, 105, 110, 103];
    proof {
        assert(v@ =~= copyright_text());
    }
    v
}

/// Index of the first dead entity at or after `j`, or the length when all
/// remaining entities are alive.
pub open spec fn first_dead_from(es: Seq<Entity>, j: int) -> int
    decreases es.len() - j,
{
    if j < 0 || j >= es.len() {
        es.len() as int
    } else if !es[j].alive {
        j
    } else {
        first_dead_from(es, j + 1)
    }
}

/// The entity list after reviving its first dead slot at (`x`, `y`); a
/// list with no dead slot is left unchanged.
pub open spec fn spawn_into(es: Seq<Entity>, x: i32, y: i32) -> Seq<Entity> {
    let f = first_dead_from(es, 0);
    if f < es.len() {
        es.update(f, Entity { x, y, alive: true })
    } else {
        es
    }
}

/// A movement step in pixels: speed times the elapsed milliseconds over
/// one thousand, saturated at the 32-bit maximum.
pub open spec fn speed_delta(speed: int, dt_ms: int) -> int {
    let d = speed * dt_ms / 1000;
    if d > i32::MAX {
        i32::MAX as int
    } else {
        d
    }
}

/// One bullet after a frame: it climbs by `dy` and dies above the screen.
pub open spec fn step_bullet(b: Entity, dy: int) -> Entity {
    if b.alive {
        let ny = crate::geom::clamp_i32(b.y - dy);
        Entity { x: b.x, y: ny, alive: ny as int - (BULLET_SIZE as int) / 2 >= 0 }
    } else {
        b
    }
}

/// Every bullet of the pool after a frame.
pub open spec fn bullet_phase(bullets: Seq<Entity>, dy: int) -> Seq<Entity> {
    Seq::new(bullets.len(), |k: int| step_bullet(bullets[k], dy))
}

/// One enemy after its fall: it sinks by `dy` and despawns below the
/// screen.
pub open spec fn step_enemy_move(e: Entity, dy: int) -> Entity {
    if e.alive {
        let ny = crate::geom::clamp_i32(e.y + dy);
        Entity {
            x: e.x,
            y: ny,
            alive: !(ny as int - (ENEMY_SIZE as int) / 2 > DISPLAY_HEIGHT as int),
        }
    } else {
        e
    }
}

/// Index of the first bullet at or after `j` that is in flight and
/// touches `e`, or the pool size when none does.
pub open spec fn first_hit_from(bullets: Seq<Entity>, e: Entity, j: int) -> int
    decreases bullets.len() - j,
{
    if j < 0 || j >= bullets.len() {
        bullets.len() as int
    } else if bullets[j].alive && spec_overlaps(
        e,
        ENEMY_SIZE as int,
        bullets[j],
        BULLET_SIZE as int,
    ) {
        j
    } else {
        first_hit_from(bullets, e, j + 1)
    }
}

/// The enemies, bullets, player and score after the enemies numbered `i`
/// and up have taken their frame step, in order: each enemy falls,
/// possibly trades itself against the first bullet that touches it for a
/// kill reward, and a surviving enemy that touches the player kills the
/// player.
pub open spec fn enemy_phase(
    i: int,
    enemies: Seq<Entity>,
    bullets: Seq<Entity>,
    player: Entity,
    score: int,
    dy: int,
) -> (Seq<Entity>, Seq<Entity>, Entity, int)
    decreases enemies.len() - i,
{
    if i < 0 || i >= enemies.len() {
        (enemies, bullets, player, score)
    } else {
        let e1 = step_enemy_move(enemies[i], dy);
        let h = first_hit_from(bullets, e1, 0);
        let hit = e1.alive && h < bullets.len();
        let e2 = if hit {
            Entity { x: e1.x, y: e1.y, alive: false }
        } else {
            e1
        };
        let bullets2 = if hit {
            bullets.update(h, Entity { x: bullets[h].x, y: bullets[h].y, alive: false })
        } else {
            bullets
        };
        let score2 = if hit {
            score + PLAYER_KILL_REWARD
        } else {
            score
        };
        let player2 = if e2.alive && spec_overlaps(
            e2,
            ENEMY_SIZE as int,
            player,
            PLAYER_SIZE as int,
        ) {
            Entity { x: player.x, y: player.y, alive: false }
        } else {
            player
        };
        enemy_phase(i + 1, enemies.update(i, e2), bullets2, player2, score2, dy)
    }
}

/// Horizontal position of a spawned enemy: the magnitude of the seed,
/// reduced modulo the display width.
pub open spec fn spawn_x(seed: i32) -> int {
    (if seed < 0 {
        -(seed as int)
    } else {
        seed as int
    }) % (DISPLAY_WIDTH as int)
}

/// What the score label shows: the word `Score:`, a space, and the score
/// in decimal.
pub open spec fn score_text(score: int) -> Seq<u8> {
    seq![83u8, 99u8, 111u8, 114u8, 101u8, 58u8, 32u8] + digits(score as nat)
}

/// How one frame transforms the state: nothing under pause; otherwise the
/// bullets climb, the enemies fall and fight, the spawn timer runs and may
/// place a new enemy, and the score label is rebuilt.
pub open spec fn update_relation(pre: State, post: State, dt_ms: int) -> bool {
    if pre.pause {
        post == pre
    } else {
        let b_dy = speed_delta(BULLET_SPEED as int, dt_ms);
        let e_dy = speed_delta(ENEMY_SPEED as int, dt_ms);
        let bullets1 = bullet_phase(pre.bullets@, b_dy);
        let t = enemy_phase(0, pre.enemies@, bullets1, pre.player, pre.score as int, e_dy);
        let cd1 = crate::geom::clamp_i32(pre.enemy_spawn_cooldown_ms - dt_ms);
        let spawned = cd1 < 0;
        let seed2 = if spawned {
            rng_next(pre.rng.seed)
        } else {
            pre.rng.seed
        };
        let enemies2 = if spawned {
            spawn_into(t.0, spawn_x(seed2) as i32, (-((ENEMY_SIZE as int) / 2)) as i32)
        } else {
            t.0
        };
        let cd2 = if spawned {
            ENEMY_SPAWN_PERIOD_MS
        } else {
            cd1
        };
        &&& post.player == t.2
        &&& post.bullets@ == t.1
        &&& post.enemies@ == enemies2
        &&& post.score == t.3
        &&& post.enemy_spawn_cooldown_ms == cd2
        &&& post.rng.seed == seed2
        &&& post.pause == false
        &&& post.score_label.content() == score_text(t.3)
    }
}

/// Powers of ten, for bounding how many digits a score can need.
spec fn pow10(k: nat) -> int
    decreases k,
{
    if k == 0 {
        1
    } else {
        10 * pow10((k - 1) as nat)
    }
}

/// A number below the `k`-th power of ten needs at most `k` digits.
proof fn lemma_digits_len_bound(x: nat, k: nat)
    requires
        k >= 1,
        x < pow10(k),
    ensures
        digits(x).len() <= k,
    decreases k,
{
    if x < 10 {
    } else {
        assert(pow10(0) == 1);
        assert(k >= 2) by {
            if k == 1 {
                assert(pow10(0) == 1);
                assert(pow10(1) == 10 * pow10(0));
            }
        }
        assert(pow10(k) == 10 * pow10((k - 1) as nat));
        vstd::arithmetic::div_mod::lemma_fundamental_div_mod(x as int, 10);
        vstd::arithmetic::div_mod::lemma_mod_bound(x as int, 10);
        assert(x / 10 < pow10((k - 1) as nat));
        lemma_digits_len_bound(x / 10, (k - 1) as nat);
    }
}

/// The pixel left at (`x`, `y`) by the first `n` entities of a pool,
/// drawn in order over `below`, each with its drop shadow; a later entity
/// draws over an earlier one.
pub open spec fn ents_pixel(
    es: Seq<Entity>,
    n: int,
    size: int,
    color: Pixel,
    below: Pixel,
    x: int,
    y: int,
) -> Pixel
    decreases n,
{
    if n <= 0 {
        below
    } else {
        entity_pixel(es[n - 1], size, color, ents_pixel(es, n - 1, size, color, below, x, y), x, y)
    }
}

/// The pixel one rendered frame leaves at (`x`, `y`): over the
/// background, the player, the bullets, the enemies, the score label and
/// the copyright line, each later layer drawn over the earlier ones.
pub open spec fn render_pixel(s: State, atlas: Seq<u8>, x: int, y: int) -> Pixel {
    let base = Pixel(BACKGROUND_COLOR_WORD);
    let p1 = entity_pixel(s.player, PLAYER_SIZE as int, Pixel(PLAYER_COLOR_WORD), base, x, y);
    let p2 = ents_pixel(
        s.bullets@,
        BULLETS_CAPACITY as int,
        BULLET_SIZE as int,
        Pixel(BULLET_COLOR_WORD),
        p1,
        x,
        y,
    );
    let p3 = ents_pixel(
        s.enemies@,
        ENEMIES_CAPACITY as int,
        ENEMY_SIZE as int,
        Pixel(ENEMY_COLOR_WORD),
        p2,
        x,
        y,
    );
    let lab = s.score_label.content();
    let p4 = if text_covers(
        atlas,
        lab,
        SCORE_LABEL_PADDING as int,
        SCORE_LABEL_PADDING as int,
        SCORE_LABEL_SCALE as int,
        x,
        y,
    ) {
        Pixel(SCORE_COLOR_WORD)
    } else if text_covers(
        atlas,
        lab,
        SCORE_LABEL_PADDING - SHADOW_OFFSET,
        SCORE_LABEL_PADDING - SHADOW_OFFSET,
        SCORE_LABEL_SCALE as int,
        x,
        y,
    ) {
        Pixel(SHADOW_COLOR_WORD)
    } else {
        p3
    };
    let cx = DISPLAY_WIDTH as int - (FONT_CHAR_WIDTH as int) * (COPYRIGHT_SCALE as int) * (
    copyright_text().len() as int) - COPYRIGHT_PADDING as int;
    let cy = DISPLAY_HEIGHT as int - (FONT_CHAR_HEIGHT as int) * (COPYRIGHT_SCALE as int)
        - COPYRIGHT_PADDING as int;
    if text_covers(atlas, copyright_text(), cx, cy, COPYRIGHT_SCALE as int, x, y) {
        Pixel(SCORE_COLOR_WORD)
    } else if text_covers(
        atlas,
        copyright_text(),
        cx - SHADOW_OFFSET,
        cy - SHADOW_OFFSET,
        COPYRIGHT_SCALE as int,
        x,
        y,
    ) {
        Pixel(SHADOW_COLOR_WORD)
    } else {
        p4
    }
}

/// Index of the first bullet in flight that touches `e`, or the pool size
/// when none does.
fn find_hit(bullets: &Vec<Entity>, e: &Entity) -> (h: usize)
    requires
        bullets@.len() == BULLETS_CAPACITY,
    ensures
        h as int == first_hit_from(bullets@, *e, 0),
        h <= BULLETS_CAPACITY,
{
    let mut j: usize = 0;
    while j < BULLETS_CAPACITY
        invariant
            j <= BULLETS_CAPACITY,
            bullets@.len() == BULLETS_CAPACITY,
            first_hit_from(bullets@, *e, 0) == first_hit_from(bullets@, *e, j as int),
        decreases BULLETS_CAPACITY - j,
    {
        let bl = bullets[j];
        if bl.alive && e.overlaps(ENEMY_SIZE, &bl, BULLET_SIZE) {
            proof {
                assert(first_hit_from(bullets@, *e, j as int) == j);
            }
            return j;
        }
        j = j + 1;
    }
    proof {
        assert(first_hit_from(bullets@, *e, BULLETS_CAPACITY as int) == BULLETS_CAPACITY);
    }
    BULLETS_CAPACITY
}

/// The whole game in one value: the player, fixed pools of bullets and
/// enemies, the spawn timer, the score and its label, and the generator
/// that places new enemies.
pub struct State {
    pub player: Entity,
    pub bullets: Vec<Entity>,
    pub enemies: Vec<Entity>,
    pub enemy_spawn_cooldown_ms: i32,
    pub pause: bool,
    pub score: usize,
    pub score_label: Label,
    pub rng: Rng,
}

impl State {
    /// The entity pools hold exactly their capacity and the label is
    /// well formed.
    pub open spec fn wf(&self) -> bool {
        &&& self.bullets@.len() == BULLETS_CAPACITY
        &&& self.enemies@.len() == ENEMIES_CAPACITY
        &&& self.score_label.wf()
    }

    /// The state a fresh game starts from.
    pub fn default() -> (s: State)
        ensures
            s.wf(),
            s.player == (Entity {
                x: 0,
                y: (DISPLAY_HEIGHT as int - PLAYER_SIZE as int) as i32,
                alive: true,
            }),
            forall|k: int| 0 <= k < BULLETS_CAPACITY ==> s.bullets@[k] == Entity::spec_dead(),
            forall|k: int| 0 <= k < ENEMIES_CAPACITY ==> s.enemies@[k] == Entity::spec_dead(),
            s.enemy_spawn_cooldown_ms == 0,
            s.pause == false,
            s.score == 0,
            s.score_label.content() == Seq::<u8>::empty(),
            s.rng.seed == RNG_DEFAULT_SEED,
    {
        let mut bullets: Vec<Entity> = Vec::new();
        let mut i: usize = 0;
        while i < BULLETS_CAPACITY
            invariant
                i <= BULLETS_CAPACITY,
                bullets@.len() == i,
                forall|k: int| 0 <= k < i ==> bullets@[k] == Entity::spec_dead(),
            decreases BULLETS_CAPACITY - i,
        {
            bullets.push(Entity::dead());
            i = i + 1;
        }
        let mut enemies: Vec<Entity> = Vec::new();
        let mut j: usize = 0;
        while j < ENEMIES_CAPACITY
            invariant
                j <= ENEMIES_CAPACITY,
                enemies@.len() == j,
                forall|k: int| 0 <= k < j ==> enemies@[k] == Entity::spec_dead(),
            decreases ENEMIES_CAPACITY - j,
        {
            enemies.push(Entity::dead());
            j = j + 1;
        }
        State {
            player: Entity::new(0, DISPLAY_HEIGHT as i32 - PLAYER_SIZE),
            bullets,
            enemies,
            enemy_spawn_cooldown_ms: 0,
            pause: false,
            score: 0,
            score_label: Label::empty(),
            rng: Rng::from_seed(RNG_DEFAULT_SEED),
        }
    }

    /// Revives the first dead enemy slot at (`x`, `y`); with every enemy
    /// alive the spawn is dropped.
    pub fn spawn_enemy(&mut self, x: i32, y: i32)
        requires
            old(self).wf(),
        ensures
            final(self).wf(),
            final(self).enemies@ == spawn_into(old(self).enemies@, x, y),
            final(self).player == old(self).player,
            final(self).bullets == old(self).bullets,
            final(self).enemy_spawn_cooldown_ms == old(self).enemy_spawn_cooldown_ms,
            final(self).pause == old(self).pause,
            final(self).score == old(self).score,
            final(self).score_label == old(self).score_label,
            final(self).rng == old(self).rng,
    {
        let mut k: usize = 0;
        while k < ENEMIES_CAPACITY
            invariant
                k <= ENEMIES_CAPACITY,
                self == old(self),
                old(self).wf(),
                forall|t: int| 0 <= t < k ==> self.enemies@[t].alive,
                first_dead_from(self.enemies@, 0) == first_dead_from(self.enemies@, k as int),
            decreases ENEMIES_CAPACITY - k,
        {
            if !self.enemies[k].alive {
                self.enemies.set(k, Entity::new(x, y));
                proof {
                    assert(first_dead_from(old(self).enemies@, k as int) == k);
                }
                return ;
            }
            k = k + 1;
        }
        proof {
            assert(first_dead_from(old(self).enemies@, ENEMIES_CAPACITY as int)
                == ENEMIES_CAPACITY);
        }
    }

    /// Revives the first dead bullet slot at (`x`, `y`); with every bullet
    /// in flight the shot is dropped.
    pub fn spawn_bullet(&mut self, x: i32, y: i32)
        requires
            old(self).wf(),
        ensures
            final(self).wf(),
            final(self).bullets@ == spawn_into(old(self).bullets@, x, y),
            final(self).player == old(self).player,
            final(self).enemies == old(self).enemies,
            final(self).enemy_spawn_cooldown_ms == old(self).enemy_spawn_cooldown_ms,
            final(self).pause == old(self).pause,
            final(self).score == old(self).score,
            final(self).score_label == old(self).score_label,
            final(self).rng == old(self).rng,
    {
        let mut k: usize = 0;
        while k < BULLETS_CAPACITY
            invariant
                k <= BULLETS_CAPACITY,
                self == old(self),
                old(self).wf(),
                forall|t: int| 0 <= t < k ==> self.bullets@[t].alive,
                first_dead_from(self.bullets@, 0) == first_dead_from(self.bullets@, k as int),
            decreases BULLETS_CAPACITY - k,
        {
            if !self.bullets[k].alive {
                self.bullets.set(k, Entity::new(x, y));
                proof {
                    assert(first_dead_from(old(self).bullets@, k as int) == k);
                }
                return ;
            }
            k = k + 1;
        }
        proof {
            assert(first_dead_from(old(self).bullets@, BULLETS_CAPACITY as int)
                == BULLETS_CAPACITY);
        }
    }

    /// Follows the pointer horizontally while the player is alive.
    pub fn mouse_move(&mut self, x: i32, _y: i32)
        requires
            old(self).wf(),
        ensures
            final(self).wf(),
            old(self).player.alive ==> final(self).player == (Entity {
                x,
                ..old(self).player
            }),
            !old(self).player.alive ==> final(self).player == old(self).player,
            final(self).bullets == old(self).bullets,
            final(self).enemies == old(self).enemies,
            final(self).enemy_spawn_cooldown_ms == old(self).enemy_spawn_cooldown_ms,
            final(self).pause == old(self).pause,
            final(self).score == old(self).score,
            final(self).score_label == old(self).score_label,
            final(self).rng == old(self).rng,
    {
        if self.player.alive {
            self.player.x = x;
        }
    }

    /// Fires a bullet from just above the player while the player is
    /// alive.
    pub fn mouse_click(&mut self)
        requires
            old(self).wf(),
        ensures
            final(self).wf(),
            old(self).player.alive ==> final(self).bullets@ == spawn_into(
                old(self).bullets@,
                old(self).player.x,
                crate::geom::clamp_i32(old(self).player.y - PLAYER_SIZE / 2 - BULLET_SIZE / 2),
            ),
            !old(self).player.alive ==> final(self).bullets == old(self).bullets,
            final(self).player == old(self).player,
            final(self).enemies == old(self).enemies,
            final(self).enemy_spawn_cooldown_ms == old(self).enemy_spawn_cooldown_ms,
            final(self).pause == old(self).pause,
            final(self).score == old(self).score,
            final(self).score_label == old(self).score_label,
            final(self).rng == old(self).rng,
    {
        if self.player.alive {
            let by64 = self.player.y as i64 - (PLAYER_SIZE / 2 + BULLET_SIZE / 2) as i64;
            let by: i32 = if by64 < i32::MIN as i64 {
                i32::MIN
            } else {
                by64 as i32
            };
            let bx = self.player.x;
            self.spawn_bullet(bx, by);
        }
    }

    /// Advances the game by `dt_ms` milliseconds: bullets climb, enemies
    /// fall and fight, the spawn timer runs, and the score label is
    /// rebuilt.  Under pause the state is left untouched.
    pub fn update(&mut self, dt_ms: i32)
        requires
            old(self).wf(),
            dt_ms >= 0,
            old(self).score <= usize::MAX - 1000,
        ensures
            final(self).wf(),
            update_relation(*old(self), *final(self), dt_ms as int),
    {
        if self.pause {
            return ;
        }
        let dtu: u64 = dt_ms as u64;
        proof {
            assert(dtu <= 0x7FFF_FFFF);
            assert(BULLET_SPEED as u64 == 1200);
            assert(ENEMY_SPEED as u64 == 300);
        }
        let bd64 = (BULLET_SPEED as u64) * dtu / 1000;
        let b_dy: i32 = if bd64 > i32::MAX as u64 {
            i32::MAX
        } else {
            bd64 as i32
        };
        let ed64 = (ENEMY_SPEED as u64) * dtu / 1000;
        let e_dy: i32 = if ed64 > i32::MAX as u64 {
            i32::MAX
        } else {
            ed64 as i32
        };
        proof {
            assert(b_dy as int == speed_delta(BULLET_SPEED as int, dt_ms as int));
            assert(e_dy as int == speed_delta(ENEMY_SPEED as int, dt_ms as int));
        }
        let ghost bullets0 = self.bullets@;
        let mut k: usize = 0;
        while k < BULLETS_CAPACITY
            invariant
                k <= BULLETS_CAPACITY,
                self.bullets@.len() == BULLETS_CAPACITY,
                bullets0 == old(self).bullets@,
                b_dy >= 0,
                forall|t: int| 0 <= t < k ==> self.bullets@[t] == step_bullet(bullets0[t], b_dy as int),
                forall|t: int| k <= t < BULLETS_CAPACITY ==> self.bullets@[t] == bullets0[t],
                self.player == old(self).player,
                self.enemies == old(self).enemies,
                self.enemy_spawn_cooldown_ms == old(self).enemy_spawn_cooldown_ms,
                self.pause == false,
                self.score == old(self).score,
                self.score_label == old(self).score_label,
                self.rng == old(self).rng,
                old(self).wf(),
            decreases BULLETS_CAPACITY - k,
        {
            let b = self.bullets[k];
            if b.alive {
                let ny64 = b.y as i64 - b_dy as i64;
                let ny: i32 = if ny64 < i32::MIN as i64 {
                    i32::MIN
                } else {
                    ny64 as i32
                };
                let alive2 = ny as i64 - (BULLET_SIZE / 2) as i64 >= 0;
                self.bullets.set(k, Entity { x: b.x, y: ny, alive: alive2 });
            }
            k = k + 1;
        }
        proof {
            assert(self.bullets@ =~= bullet_phase(bullets0, b_dy as int));
        }
        let ghost bullets1 = self.bullets@;
        let ghost enemies0 = self.enemies@;
        let ghost target = enemy_phase(
            0,
            enemies0,
            bullets1,
            old(self).player,
            old(self).score as int,
            e_dy as int,
        );
        let mut i: usize = 0;
        while i < ENEMIES_CAPACITY
            invariant
                i <= ENEMIES_CAPACITY,
                self.bullets@.len() == BULLETS_CAPACITY,
                self.enemies@.len() == ENEMIES_CAPACITY,
                e_dy >= 0,
                self.score <= old(self).score + 100 * i,
                old(self).score <= usize::MAX - 1000,
                enemy_phase(
                    i as int,
                    self.enemies@,
                    self.bullets@,
                    self.player,
                    self.score as int,
                    e_dy as int,
                ) == target,
                self.enemy_spawn_cooldown_ms == old(self).enemy_spawn_cooldown_ms,
                self.pause == false,
                self.score_label == old(self).score_label,
                self.rng == old(self).rng,
                old(self).wf(),
            decreases ENEMIES_CAPACITY - i,
        {
            let ghost ens_in = self.enemies@;
            let ghost bls_in = self.bullets@;
            let ghost player_in = self.player;
            let ghost score_in = self.score as int;
            let e0 = self.enemies[i];
            let mut e1 = e0;
            if e0.alive {
                let ny64 = e0.y as i64 + e_dy as i64;
                let ny: i32 = if ny64 > i32::MAX as i64 {
                    i32::MAX
                } else {
                    ny64 as i32
                };
                let alive2 = !(ny as i64 - (ENEMY_SIZE / 2) as i64 > DISPLAY_HEIGHT as i64);
                e1 = Entity { x: e0.x, y: ny, alive: alive2 };
            }
            proof {
                assert(e1 == step_enemy_move(e0, e_dy as int));
            }
            let h = if e1.alive {
                find_hit(&self.bullets, &e1)
            } else {
                BULLETS_CAPACITY
            };
            let hit = e1.alive && h < BULLETS_CAPACITY;
            let mut e2 = e1;
            if hit {
                e2 = Entity { x: e1.x, y: e1.y, alive: false };
                let bl = self.bullets[h];
                self.bullets.set(h, Entity { x: bl.x, y: bl.y, alive: false });
                self.score = self.score + PLAYER_KILL_REWARD;
            }
            self.enemies.set(i, e2);
            if e2.alive {
                if e2.overlaps(ENEMY_SIZE, &self.player, PLAYER_SIZE) {
                    self.player = Entity { x: self.player.x, y: self.player.y, alive: false };
                }
            }
            proof {
                assert(enemy_phase(i as int, ens_in, bls_in, player_in, score_in, e_dy as int)
                    == enemy_phase(
                    i + 1,
                    self.enemies@,
                    self.bullets@,
                    self.player,
                    self.score as int,
                    e_dy as int,
                ));
            }
            i = i + 1;
        }
        proof {
            assert(target == (self.enemies@, self.bullets@, self.player, self.score as int));
        }
        let c64 = self.enemy_spawn_cooldown_ms as i64 - dt_ms as i64;
        let cd1: i32 = if c64 < i32::MIN as i64 {
            i32::MIN
        } else {
            c64 as i32
        };
        if cd1 < 0 {
            let s2 = self.rng.rand();
            let au: u64 = if s2 < 0 {
                (-(s2 as i64)) as u64
            } else {
                s2 as u64
            };
            let ex: i32 = (au % (DISPLAY_WIDTH as u64)) as i32;
            proof {
                assert(ex as int == spawn_x(s2));
            }
            self.spawn_enemy(ex, -(ENEMY_SIZE / 2));
            self.enemy_spawn_cooldown_ms = ENEMY_SPAWN_PERIOD_MS;
        } else {
            self.enemy_spawn_cooldown_ms = cd1;
        }
        self.score_label.clear();
        self.score_label.push_byte(83);
        self.score_label.push_byte(99);
        self.score_label.push_byte(111);
        self.score_label.push_byte(114);
        self.score_label.push_byte(101);
        self.score_label.push_byte(58);
        self.score_label.push_byte(32);
        let ghost before_digits = self.score_label.content();
        self.score_label.push_usize(self.score);
        proof {
            reveal_with_fuel(pow10, 21);
            assert(pow10(20) == 100000000000000000000);
            lemma_digits_len_bound(self.score as nat, 20);
            assert(before_digits =~= seq![83u8, 99u8, 111u8, 114u8, 101u8, 58u8, 32u8]);
            assert(self.score_label.content() =~= score_text(self.score as int));
        }
    }

    /// Draws the whole frame into the display: the background, the
    /// player, every bullet and enemy with their shadows, the score label
    /// and the copyright line.  Under pause nothing is drawn.
    pub fn render(&self, display: &mut Display, font: &Font)
        requires
            self.wf(),
            font.wf(),
            old(display).wf(),
        ensures
            final(display).wf(),
            self.pause ==> *final(display) == *old(display),
            !self.pause ==> forall|x: int, y: int|
                on_screen(x, y) ==> #[trigger] pix(final(display).pixels@, x, y) == render_pixel(
                    *self,
                    font.pixels@,
                    x,
                    y,
                ),
    {
        if self.pause {
            return ;
        }
        display.fill(Pixel(BACKGROUND_COLOR_WORD));
        self.player.render(display, PLAYER_SIZE, Pixel(PLAYER_COLOR_WORD));
        let mut k: usize = 0;
        while k < BULLETS_CAPACITY
            invariant
                k <= BULLETS_CAPACITY,
                self.wf(),
                font.wf(),
                old(display).wf(),
                display.pixels@.len() == old(display).pixels@.len(),
                forall|x: int, y: int|
                    on_screen(x, y) ==> #[trigger] pix(display.pixels@, x, y) == ents_pixel(
                        self.bullets@,
                        k as int,
                        BULLET_SIZE as int,
                        Pixel(BULLET_COLOR_WORD),
                        entity_pixel(
                            self.player,
                            PLAYER_SIZE as int,
                            Pixel(PLAYER_COLOR_WORD),
                            Pixel(BACKGROUND_COLOR_WORD),
                            x,
                            y,
                        ),
                        x,
                        y,
                    ),
            decreases BULLETS_CAPACITY - k,
        {
            let b = self.bullets[k];
            b.render(display, BULLET_SIZE, Pixel(BULLET_COLOR_WORD));
            k = k + 1;
        }
        let mut j: usize = 0;
        while j < ENEMIES_CAPACITY
            invariant
                j <= ENEMIES_CAPACITY,
                self.wf(),
                font.wf(),
                old(display).wf(),
                display.pixels@.len() == old(display).pixels@.len(),
                forall|x: int, y: int|
                    on_screen(x, y) ==> #[trigger] pix(display.pixels@, x, y) == ents_pixel(
                        self.enemies@,
                        j as int,
                        ENEMY_SIZE as int,
                        Pixel(ENEMY_COLOR_WORD),
                        ents_pixel(
                            self.bullets@,
                            BULLETS_CAPACITY as int,
                            BULLET_SIZE as int,
                            Pixel(BULLET_COLOR_WORD),
                            entity_pixel(
                                self.player,
                                PLAYER_SIZE as int,
                                Pixel(PLAYER_COLOR_WORD),
                                Pixel(BACKGROUND_COLOR_WORD),
                                x,
                                y,
                            ),
                            x,
                            y,
                        ),
                        x,
                        y,
                    ),
            decreases ENEMIES_CAPACITY - j,
        {
            let e = self.enemies[j];
            e.render(display, ENEMY_SIZE, Pixel(ENEMY_COLOR_WORD));
            j = j + 1;
        }
        self.score_label.render(
            display,
            font,
            SCORE_LABEL_PADDING,
            SCORE_LABEL_PADDING,
            SCORE_LABEL_SCALE,
            Pixel(SCORE_COLOR_WORD),
        );
        let text = copyright_bytes();
        let cx = DISPLAY_WIDTH - FONT_CHAR_WIDTH * (COPYRIGHT_SCALE as usize) * text.len()
            - COPYRIGHT_PADDING;
        let cy = DISPLAY_HEIGHT - FONT_CHAR_HEIGHT * (COPYRIGHT_SCALE as usize)
            - COPYRIGHT_PADDING;
        font.render_bytes_wide(
            display,
            text.as_slice(),
            cx as i64 - SHADOW_OFFSET as i64,
            cy as i64 - SHADOW_OFFSET as i64,
            COPYRIGHT_SCALE,
            Pixel(SHADOW_COLOR_WORD),
        );
        font.render_bytes_wide(
            display,
            text.as_slice(),
            cx as i64,
            cy as i64,
            COPYRIGHT_SCALE,
            Pixel(SCORE_COLOR_WORD),
        );
    }

    /// Flips the pause flag.
    pub fn toggle_pause(&mut self)
        requires
            old(self).wf(),
        ensures
            final(self).wf(),
            final(self).pause == !old(self).pause,
            final(self).player == old(self).player,
            final(self).bullets == old(self).bullets,
            final(self).enemies == old(self).enemies,
            final(self).enemy_spawn_cooldown_ms == old(self).enemy_spawn_cooldown_ms,
            final(self).score == old(self).score,
            final(self).score_label == old(self).score_label,
            final(self).rng == old(self).rng,
    {
        self.pause = !self.pause;
    }
}

} // verus!

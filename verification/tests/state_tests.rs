use arcade::display::Display;
use arcade::entity::Entity;
use arcade::font::Font;
use arcade::label::Label;
use arcade::rng::Rng;
use arcade::state::State;
use arcade::state::BACKGROUND_COLOR_WORD;
use arcade::state::PLAYER_COLOR_WORD;
use arcade::DISPLAY_WIDTH;

fn label_content(l: &Label) -> Vec<u8> {
    l.chars[0..l.count].to_vec()
}

fn quiet_state() -> State {
    let mut s = State::default();
    // A spawn timer far in the future keeps updates deterministic about
    // which entities exist.
    s.enemy_spawn_cooldown_ms = 1_000_000;
    s
}

#[test]
fn default_state_starts_at_the_bottom_with_nothing_spawned() {
    let s = State::default();
    assert_eq!(s.player.x, 0);
    assert_eq!(s.player.y, 520);
    assert!(s.player.alive);
    assert_eq!(s.bullets.len(), 5);
    assert!(s.bullets.iter().all(|b| !b.alive));
    assert_eq!(s.enemies.len(), 10);
    assert!(s.enemies.iter().all(|e| !e.alive));
    assert!(!s.pause);
    assert_eq!(s.score, 0);
    assert_eq!(s.score_label.count, 0);
    assert_eq!(s.rng.seed, 123456789);
}

#[test]
fn rng_follows_the_linear_congruential_sequence() {
    let mut r = Rng::from_seed(1);
    assert_eq!(r.rand(), 1103527590);
    let mut r2 = Rng::from_seed(123456789);
    assert_eq!(r2.rand(), 231794730);
}

#[test]
fn update_moves_bullets_and_spawns_an_enemy() {
    let mut s = State::default();
    s.mouse_click();
    assert_eq!(s.bullets[0], Entity { x: 0, y: 468, alive: true });
    s.update(100);
    // The bullet climbed 1200 * 100 / 1000 = 120 pixels.
    assert_eq!(s.bullets[0], Entity { x: 0, y: 348, alive: true });
    // The spawn timer ran out, so one enemy appeared at the derived
    // pseudo-random column just above the screen.
    assert_eq!(s.enemies[0], Entity { x: 330, y: -50, alive: true });
    assert!(s.enemies.iter().skip(1).all(|e| !e.alive));
    assert_eq!(s.enemy_spawn_cooldown_ms, 1000);
    assert_eq!(s.rng.seed, 231794730);
    assert_eq!(label_content(&s.score_label), b"Score: 0".to_vec());
}

#[test]
fn update_under_pause_freezes_everything() {
    let mut s = State::default();
    s.mouse_click();
    s.toggle_pause();
    let bullets_before = s.bullets.clone();
    s.update(500);
    assert_eq!(s.bullets, bullets_before);
    assert_eq!(s.enemy_spawn_cooldown_ms, 0);
    assert_eq!(s.score_label.count, 0);
    assert!(s.enemies.iter().all(|e| !e.alive));
}

#[test]
fn bullet_and_enemy_trade_for_a_kill_reward() {
    let mut s = quiet_state();
    s.enemies[0] = Entity { x: 100, y: 300, alive: true };
    s.bullets[0] = Entity { x: 100, y: 310, alive: true };
    s.update(0);
    assert!(!s.enemies[0].alive);
    assert!(!s.bullets[0].alive);
    assert_eq!(s.score, 100);
    assert_eq!(label_content(&s.score_label), b"Score: 100".to_vec());
    assert!(s.player.alive);
}

#[test]
fn distant_bullet_does_not_touch_the_enemy() {
    let mut s = quiet_state();
    s.enemies[0] = Entity { x: 100, y: 300, alive: true };
    s.bullets[0] = Entity { x: 500, y: 300, alive: true };
    s.update(0);
    assert!(s.enemies[0].alive);
    assert!(s.bullets[0].alive);
    assert_eq!(s.score, 0);
}

#[test]
fn enemy_touching_the_player_kills_the_player() {
    let mut s = quiet_state();
    s.enemies[0] = Entity { x: 10, y: 520, alive: true };
    s.update(0);
    assert!(!s.player.alive);
    assert!(s.enemies[0].alive);
}

#[test]
fn enemy_below_the_screen_despawns() {
    let mut s = quiet_state();
    s.enemies[0] = Entity { x: 400, y: 650, alive: true };
    s.update(100);
    // It fell 300 * 100 / 1000 = 30 pixels to 680, past the bottom.
    assert!(!s.enemies[0].alive);
    assert_eq!(s.enemies[0].y, 680);
}

#[test]
fn bullet_above_the_screen_despawns() {
    let mut s = quiet_state();
    s.bullets[0] = Entity { x: 400, y: 20, alive: true };
    s.update(100);
    assert!(!s.bullets[0].alive);
    assert_eq!(s.bullets[0].y, -100);
}

#[test]
fn mouse_move_follows_only_a_live_player() {
    let mut s = State::default();
    s.mouse_move(321, 77);
    assert_eq!(s.player.x, 321);
    s.player.alive = false;
    s.mouse_move(555, 0);
    assert_eq!(s.player.x, 321);
}

#[test]
fn mouse_click_needs_a_live_player_and_a_free_slot() {
    let mut s = State::default();
    for _ in 0..7 {
        s.mouse_click();
    }
    assert_eq!(s.bullets.iter().filter(|b| b.alive).count(), 5);
    let mut dead = State::default();
    dead.player.alive = false;
    dead.mouse_click();
    assert!(dead.bullets.iter().all(|b| !b.alive));
}

#[test]
fn toggle_pause_flips_the_flag() {
    let mut s = State::default();
    assert!(!s.pause);
    s.toggle_pause();
    assert!(s.pause);
    s.toggle_pause();
    assert!(!s.pause);
}

#[test]
fn entity_overlap_is_symmetric_at_touching_edges() {
    let a = Entity { x: 0, y: 0, alive: true };
    let b = Entity { x: 100, y: 0, alive: true };
    // Half-sizes 50 + 50 exactly bridge the 100 pixel gap.
    assert!(a.overlaps(100, &b, 100));
    assert!(b.overlaps(100, &a, 100));
    assert!(!a.overlaps(99, &b, 99));
}

#[test]
fn render_paints_background_and_player() {
    let s = State::default();
    let font = Font { pixels: vec![0u8; 128 * 64] };
    let mut d = Display::new();
    s.render(&mut d, &font);
    assert_eq!(d.pixels[0 * DISPLAY_WIDTH + 790].0, BACKGROUND_COLOR_WORD);
    assert_eq!(d.pixels[520 * DISPLAY_WIDTH + 0].0, PLAYER_COLOR_WORD);
}

#[test]
fn render_under_pause_leaves_the_display_alone() {
    let mut s = State::default();
    s.toggle_pause();
    let font = Font { pixels: vec![0u8; 128 * 64] };
    let mut d = Display::new();
    s.render(&mut d, &font);
    assert!(d.pixels.iter().all(|p| p.0 == 0));
}

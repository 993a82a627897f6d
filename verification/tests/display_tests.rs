use arcade::display::Display;
use arcade::geom::clamp;
use arcade::geom::max;
use arcade::geom::min;
use arcade::pixel::Pixel;
use arcade::DISPLAY_HEIGHT;
use arcade::DISPLAY_WIDTH;

fn at(d: &Display, x: usize, y: usize) -> u32 {
    d.pixels[y * DISPLAY_WIDTH + x].0
}

#[test]
fn pixel_packs_alpha_high_and_red_low() {
    assert_eq!(Pixel::rgba(0x11, 0x22, 0x33, 0x44).0, 0x4433_2211);
    assert_eq!(Pixel::rgba(0x2B, 0x2B, 0x2B, 0xFF).0, 0xFF2B_2B2B);
}

#[test]
fn fill_overwrites_every_pixel() {
    let mut d = Display::new();
    let p = Pixel::rgba(1, 2, 3, 4);
    d.fill(p);
    assert!(d.pixels.iter().all(|q| q.0 == p.0));
}

#[test]
fn fill_rect_clips_a_rectangle_hanging_off_the_corner() {
    let mut d = Display::new();
    let red = Pixel::rgba(0xFF, 0, 0, 0xFF);
    d.fill_rect(-10, -10, 20, 20, red);
    assert_eq!(at(&d, 0, 0), red.0);
    assert_eq!(at(&d, 9, 9), red.0);
    assert_eq!(at(&d, 10, 0), 0);
    assert_eq!(at(&d, 0, 10), 0);
}

#[test]
fn fill_rect_fully_outside_changes_nothing() {
    let mut d = Display::new();
    let red = Pixel::rgba(0xFF, 0, 0, 0xFF);
    d.fill_rect(DISPLAY_WIDTH as i32 + 100, 100, 50, 50, red);
    d.fill_rect(-100, -100, 50, 50, red);
    d.fill_rect(100, DISPLAY_HEIGHT as i32, 50, 50, red);
    assert!(d.pixels.iter().all(|q| q.0 == 0));
}

#[test]
fn fill_rect_with_empty_extent_changes_nothing() {
    let mut d = Display::new();
    let red = Pixel::rgba(0xFF, 0, 0, 0xFF);
    d.fill_rect(10, 10, 0, 5, red);
    d.fill_rect(10, 10, 5, -3, red);
    assert!(d.pixels.iter().all(|q| q.0 == 0));
}

#[test]
fn put_drops_out_of_bounds_writes() {
    let mut d = Display::new();
    let p = Pixel::rgba(9, 9, 9, 9);
    d.put(-1, 5, p);
    d.put(DISPLAY_WIDTH as i32, 5, p);
    d.put(5, DISPLAY_HEIGHT as i32, p);
    d.put(5, -1, p);
    assert!(d.pixels.iter().all(|q| q.0 == 0));
    d.put(3, 4, p);
    assert_eq!(at(&d, 3, 4), p.0);
    assert_eq!(
        d.pixels.iter().filter(|q| q.0 != 0).count(),
        1
    );
}

#[test]
fn min_max_clamp_order_their_arguments() {
    assert_eq!(max(3, -7), 3);
    assert_eq!(max(-7, 3), 3);
    assert_eq!(min(3, -7), -7);
    assert_eq!(min(-7, 3), -7);
    assert_eq!(clamp(5, 0, 10), 5);
    assert_eq!(clamp(-5, 0, 10), 0);
    assert_eq!(clamp(15, 0, 10), 10);
}

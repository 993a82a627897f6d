use arcade::display::Display;
use arcade::font::Font;
use arcade::label::Label;
use arcade::pixel::Pixel;
use arcade::LABEL_CAPACITY;

fn content(l: &Label) -> Vec<u8> {
    l.chars[0..l.count].to_vec()
}

#[test]
fn label_atomic_numeric_append() {
    let mut l = Label::empty();
    for _ in 0..(LABEL_CAPACITY - 2) {
        l.push_byte(b'x');
    }
    let before = content(&l);
    l.push_usize(12345);
    assert_eq!(l.count, LABEL_CAPACITY - 2);
    assert_eq!(content(&l), before);
    l.push_usize(5);
    assert_eq!(l.count, LABEL_CAPACITY - 1);
    assert_eq!(l.chars[LABEL_CAPACITY - 2], b'5');
}

#[test]
fn push_usize_renders_zero() {
    let mut l = Label::empty();
    l.push_usize(0);
    assert_eq!(content(&l), b"0".to_vec());
}

#[test]
fn push_usize_writes_digits_most_significant_first() {
    let mut l = Label::empty();
    l.push_usize(12345);
    assert_eq!(content(&l), b"12345".to_vec());
    l.push_usize(907);
    assert_eq!(content(&l), b"12345907".to_vec());
}

#[test]
fn push_byte_drops_appends_past_capacity() {
    let mut l = Label::empty();
    for i in 0..LABEL_CAPACITY {
        l.push_byte(i as u8);
    }
    assert_eq!(l.count, LABEL_CAPACITY);
    l.push_byte(99);
    assert_eq!(l.count, LABEL_CAPACITY);
    assert_eq!(l.chars[LABEL_CAPACITY - 1], (LABEL_CAPACITY - 1) as u8);
}

#[test]
fn push_bytes_keeps_only_what_fits() {
    let mut l = Label::empty();
    for _ in 0..(LABEL_CAPACITY - 3) {
        l.push_byte(b'x');
    }
    l.push_bytes(b"abcdef");
    assert_eq!(l.count, LABEL_CAPACITY);
    assert_eq!(l.chars[LABEL_CAPACITY - 3], b'a');
    assert_eq!(l.chars[LABEL_CAPACITY - 1], b'c');
}

#[test]
fn clear_resets_the_length() {
    let mut l = Label::empty();
    l.push_bytes(b"hello");
    assert_eq!(l.count, 5);
    l.clear();
    assert_eq!(l.count, 0);
    assert!(content(&l).is_empty());
}

#[test]
fn label_render_stamps_glyphs_and_shadow() {
    let font = Font { pixels: vec![255u8; 128 * 64] };
    let color = Pixel::rgba(10, 20, 30, 40);
    let shadow = Pixel::rgba(0x2B, 0x2B, 0x2B, 0xFF);
    let mut l = Label::empty();
    l.push_byte(b'A');
    let mut d = Display::new();
    l.render(&mut d, &font, 8, 8, 1, color);
    assert_eq!(d.pixels[8 * 800 + 8].0, color.0);
    assert_eq!(d.pixels[4 * 800 + 4].0, shadow.0);
    assert_eq!(d.pixels[0].0, 0);
}

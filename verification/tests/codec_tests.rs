use arcade::codec::compress_bytes_with_custom_rle;
use arcade::codec::pack_image;
use arcade::font::Font;

#[test]
fn compress_copies_nonzero_bytes() {
    assert_eq!(
        compress_bytes_with_custom_rle(&[0x10, 0xFF, 0x01]),
        vec![0x10, 0xFF, 0x01]
    );
}

#[test]
fn compress_marks_every_zero_run_even_of_length_one() {
    assert_eq!(compress_bytes_with_custom_rle(&[0x00]), vec![0x00, 0x01]);
    assert_eq!(
        compress_bytes_with_custom_rle(&[0x00, 0x00, 0x00]),
        vec![0x00, 0x03]
    );
    assert_eq!(
        compress_bytes_with_custom_rle(&[0x20, 0x00, 0x00, 0x30]),
        vec![0x20, 0x00, 0x02, 0x30]
    );
}

#[test]
fn compress_caps_zero_runs_at_255() {
    let input = vec![0u8; 600];
    let out = compress_bytes_with_custom_rle(&input);
    assert_eq!(out, vec![0x00, 255, 0x00, 255, 0x00, 90]);
    let total: u32 = out.iter().skip(1).step_by(2).map(|&c| c as u32).sum();
    assert_eq!(total, 600);
}

#[test]
fn pack_rejects_gray_samples() {
    assert!(pack_image(&[0, 255, 7, 0, 0, 0, 0, 0]).is_none());
}

#[test]
fn pack_accepts_pure_black_and_white() {
    assert!(pack_image(&[0, 255, 0, 255, 0, 0, 0, 255]).is_some());
}

#[test]
fn pack_puts_the_first_sample_in_the_most_significant_bit() {
    let mut img = [0u8; 8];
    img[0] = 255;
    assert_eq!(pack_image(&img).unwrap(), vec![0x80]);
    let mut img2 = [0u8; 8];
    img2[7] = 255;
    assert_eq!(pack_image(&img2).unwrap(), vec![0x01]);
}

#[test]
fn encode_decode_single_white_pixel() {
    let mut img = vec![0u8; 64];
    img[3 * 8 + 3] = 255;
    let packed = pack_image(&img).unwrap();
    assert_eq!(packed, vec![0x00, 0x00, 0x00, 0b0001_0000, 0x00, 0x00, 0x00, 0x00]);
    let compressed = compress_bytes_with_custom_rle(&packed);
    assert_eq!(compressed, vec![0x00, 3, 0b0001_0000, 0x00, 4]);
    let mut font = Font::new();
    font.decompress_from_bytes(&compressed);
    for i in 0..64 {
        let expect = if i == 27 { 255 } else { 0 };
        assert_eq!(font.pixels[i], expect);
    }
}

#[test]
fn round_trip_reproduces_a_full_atlas_image() {
    let mut img: Vec<u8> = Vec::new();
    for i in 0..(128 * 64) {
        img.push(if (i * 7) % 13 < 4 { 255 } else { 0 });
    }
    let packed = pack_image(&img).unwrap();
    let compressed = compress_bytes_with_custom_rle(&packed);
    let mut font = Font { pixels: vec![1u8; 128 * 64] };
    font.decompress_from_bytes(&compressed);
    assert_eq!(font.pixels, img);
}

#[test]
fn decoder_ignores_a_truncated_run_marker() {
    let mut font = Font { pixels: vec![1u8; 128 * 64] };
    font.decompress_from_bytes(&[0x00]);
    assert!(font.pixels.iter().all(|&s| s == 1));
}

#[test]
fn decoder_drops_samples_past_the_atlas_capacity() {
    let stream = vec![0xFFu8; 2000];
    let mut font = Font { pixels: vec![1u8; 128 * 64] };
    font.decompress_from_bytes(&stream);
    assert!(font.pixels.iter().all(|&s| s == 255));
}

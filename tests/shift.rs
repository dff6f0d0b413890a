use palette_shift::color::{FromHexStr, Rgb8};
use palette_shift::shift::{
    nearest_index, pixel_dist_sq, shift_pixel, shift_to_palette, try_shift_to_palette, Blend,
    ShiftError,
};

fn nord() -> Vec<Rgb8> {
    ["#2e3440", "#3b4252", "#d8dee9", "#88c0d0", "#bf616a", "#a3be8c"]
        .iter()
        .map(|s| Rgb8::from_hex(s).unwrap())
        .collect()
}

fn sample_buffer() -> Vec<u8> {
    vec![0, 0, 0, 255, 255, 255, 10, 200, 30, 128, 64, 32, 46, 52, 64, 190, 100, 100]
}

#[test]
fn white_half_way_to_black_rounds_up() {
    let mut buf = vec![255, 255, 255];
    shift_to_palette(&mut buf, &vec![Rgb8::new(0, 0, 0)], Blend::new(1, 2));
    assert_eq!(buf, vec![128, 128, 128]);
}

#[test]
fn zero_blend_leaves_buffer_unchanged() {
    let mut buf = sample_buffer();
    shift_to_palette(&mut buf, &nord(), Blend::from_percent(0));
    assert_eq!(buf, sample_buffer());
}

#[test]
fn full_blend_snaps_to_nearest_palette_color() {
    let pal = nord();
    let mut buf = sample_buffer();
    shift_to_palette(&mut buf, &pal, Blend::from_percent(100));
    let old = sample_buffer();
    for k in 0..old.len() / 3 {
        let p = Rgb8::new(old[3 * k], old[3 * k + 1], old[3 * k + 2]);
        let c = pal[nearest_index(&pal, p)];
        assert_eq!((buf[3 * k], buf[3 * k + 1], buf[3 * k + 2]), (c.r, c.g, c.b));
    }
    assert_eq!(&buf[12..15], &[46, 52, 64]);
    assert_eq!(&buf[3..6], &[216, 222, 233]);
}

#[test]
fn order_of_pixels_does_not_matter() {
    let pal = nord();
    let blend = Blend::from_percent(70);
    let mut whole = sample_buffer();
    shift_to_palette(&mut whole, &pal, blend);
    let old = sample_buffer();
    let mut reversed: Vec<u8> = Vec::new();
    for k in (0..old.len() / 3).rev() {
        let mut px = old[3 * k..3 * k + 3].to_vec();
        shift_to_palette(&mut px, &pal, blend);
        reversed.extend_from_slice(&px);
    }
    let mut rebuilt = vec![0u8; whole.len()];
    let n = whole.len() / 3;
    for k in 0..n {
        rebuilt[3 * k..3 * k + 3].copy_from_slice(&reversed[3 * (n - 1 - k)..3 * (n - k)]);
    }
    assert_eq!(rebuilt, whole);
    let (a, b) = old.split_at(6);
    let mut a = a.to_vec();
    let mut b = b.to_vec();
    shift_to_palette(&mut b, &pal, blend);
    shift_to_palette(&mut a, &pal, blend);
    a.extend_from_slice(&b);
    assert_eq!(a, whole);
}

#[test]
fn tie_goes_to_first_entry() {
    let p = Rgb8::new(100, 100, 100);
    let pal = vec![Rgb8::new(90, 100, 100), Rgb8::new(110, 100, 100), Rgb8::new(100, 90, 100)];
    assert_eq!(nearest_index(&pal, p), 0);
    let pal = vec![Rgb8::new(0, 0, 0), Rgb8::new(110, 100, 100), Rgb8::new(90, 100, 100)];
    assert_eq!(nearest_index(&pal, p), 1);
    assert_eq!(
        shift_pixel(p, &pal, Blend::from_percent(100)),
        Rgb8::new(110, 100, 100)
    );
}

#[test]
fn distance_is_squared_euclidean() {
    assert_eq!(pixel_dist_sq(Rgb8::new(0, 0, 0), Rgb8::new(255, 255, 255)), 195075);
    assert_eq!(pixel_dist_sq(Rgb8::new(10, 20, 30), Rgb8::new(13, 16, 30)), 25);
}

#[test]
fn blend_factor_is_not_clamped() {
    let pal = vec![Rgb8::new(200, 100, 0)];
    let p = Rgb8::new(100, 100, 100);
    assert_eq!(shift_pixel(p, &pal, Blend::new(3, 2)), Rgb8::new(250, 100, 0));
    assert_eq!(shift_pixel(p, &pal, Blend::new(2, 1)), Rgb8::new(255, 100, 0));
    assert_eq!(shift_pixel(p, &pal, Blend::new(-1, 2)), Rgb8::new(50, 100, 150));
    assert_eq!(shift_pixel(p, &pal, Blend::new(-2, 1)), Rgb8::new(0, 100, 255));
}

#[test]
fn seventy_percent_rounds_to_nearest() {
    let pal = vec![Rgb8::new(255, 0, 1)];
    let p = Rgb8::new(0, 255, 0);
    assert_eq!(shift_pixel(p, &pal, Blend::from_percent(70)), Rgb8::new(179, 77, 1));
}

#[test]
fn buffer_length_must_be_a_multiple_of_three() {
    let mut buf = vec![1, 2, 3, 4];
    assert_eq!(
        try_shift_to_palette(&mut buf, &nord(), Blend::from_percent(50)),
        Err(ShiftError::BufferLength)
    );
    assert_eq!(buf, vec![1, 2, 3, 4]);
}

#[test]
fn palette_must_not_be_empty() {
    let mut buf = vec![1, 2, 3];
    assert_eq!(
        try_shift_to_palette(&mut buf, &Vec::new(), Blend::from_percent(50)),
        Err(ShiftError::EmptyPalette)
    );
}

#[test]
fn blend_denominator_must_be_positive() {
    let mut buf = vec![1, 2, 3];
    let bad = Blend { num: 1, den: 0 };
    assert_eq!(try_shift_to_palette(&mut buf, &nord(), bad), Err(ShiftError::InvalidBlend));
}

#[test]
fn checked_shift_matches_unchecked() {
    let mut a = sample_buffer();
    let mut b = sample_buffer();
    assert_eq!(try_shift_to_palette(&mut a, &nord(), Blend::from_percent(70)), Ok(()));
    shift_to_palette(&mut b, &nord(), Blend::from_percent(70));
    assert_eq!(a, b);
    assert_ne!(a, sample_buffer());
}

#[test]
fn empty_buffer_stays_empty() {
    let mut buf: Vec<u8> = Vec::new();
    shift_to_palette(&mut buf, &nord(), Blend::from_percent(70));
    assert!(buf.is_empty());
}

use palette_shift::color::{FromHexStr, Rgb, Rgb8};
use palette_shift::hex::HexError;

#[test]
fn parses_prefixed_hex() {
    assert_eq!(Rgb8::from_hex("#2e3440"), Ok(Rgb8::new(46, 52, 64)));
}

#[test]
fn parses_unprefixed_hex() {
    assert_eq!(Rgb8::from_hex("2e3440"), Ok(Rgb8::new(46, 52, 64)));
}

#[test]
fn parses_uppercase_hex() {
    assert_eq!(Rgb8::from_hex("#FFA0b1"), Ok(Rgb8::new(255, 160, 177)));
}

#[test]
fn rejects_wrong_lengths() {
    assert_eq!(Rgb8::from_hex(""), Err(HexError::InvalidFormat));
    assert_eq!(Rgb8::from_hex("#2e34"), Err(HexError::InvalidFormat));
    assert_eq!(Rgb8::from_hex("2e34"), Err(HexError::InvalidFormat));
    assert_eq!(Rgb8::from_hex("#2e34400"), Err(HexError::InvalidFormat));
    assert_eq!(Rgb8::from_hex("x2e3440"), Err(HexError::InvalidFormat));
}

#[test]
fn rejects_non_hex_digits() {
    assert_eq!(Rgb8::from_hex("#2e34g0"), Err(HexError::InvalidDigit));
    assert_eq!(Rgb8::from_hex("+f0000"), Err(HexError::InvalidDigit));
    assert_eq!(Rgb8::from_hex("ab cde"), Err(HexError::InvalidDigit));
    assert_eq!(Rgb8::from_hex("#2e344"), Err(HexError::InvalidDigit));
}

#[test]
fn float_color_from_hex_and_back_to_bytes() {
    let c = Rgb::from_hex("#2e3440").unwrap();
    assert_eq!(c, Rgb::new(46, 52, 64, 255));
    assert_eq!(c.to_bytes(), Rgb8::new(46, 52, 64));
    assert!(((c.r as f64 / c.den as f64) - 0.1804).abs() < 1e-4);
    assert!(((c.g as f64 / c.den as f64) - 0.2039).abs() < 1e-4);
    assert!(((c.b as f64 / c.den as f64) - 0.2510).abs() < 1e-4);
    assert_eq!(Rgb::from_hex("#2e34"), Err(HexError::InvalidFormat));
}

#[test]
fn hex_string_is_two_lowercase_digits_per_byte() {
    assert_eq!(Rgb::new_u8(46, 52, 64).to_hex_string(), "#2e3440");
    assert_eq!(Rgb::new_u8(5, 0, 255).to_hex_string(), "#0500ff");
    assert_eq!(Rgb::new(1, 2, 1, 2).to_hex_string(), "#80ff80");
}

#[test]
fn hex_round_trip_over_all_bytes() {
    for v in 0..=255u8 {
        let w = v.wrapping_mul(7);
        let x = 255 - v;
        let s = Rgb::new_u8(v, w, x).to_hex_string();
        assert_eq!(Rgb8::from_hex(&s), Ok(Rgb8::new(v, w, x)));
    }
}

#[test]
fn rounding_and_truncating_policies_differ_at_a_half() {
    let half = Rgb::new(1, 1, 1, 2);
    assert_eq!(half.to_bytes(), Rgb8::new(128, 128, 128));
    assert_eq!(half.to_bytes_fast(), Rgb8::new(127, 127, 127));
}

#[test]
fn byte_conversion_clamps() {
    let c = Rgb::new(-3, 7, 1, 4);
    assert_eq!(c.to_bytes(), Rgb8::new(0, 255, 64));
    assert_eq!(c.to_bytes_fast(), Rgb8::new(0, 255, 63));
}

#[test]
fn white_half_way_to_black() {
    let p = Rgb::new_u8(255, 255, 255);
    let delta = Rgb::from(Rgb8::new(0, 0, 0)).sub(p);
    let moved = p.add(delta.scale(1, 2));
    assert_eq!(moved.to_bytes(), Rgb8::new(128, 128, 128));
    assert_eq!(moved.to_bytes_fast(), Rgb8::new(127, 127, 127));
}

#[test]
fn arithmetic_is_exact() {
    let a = Rgb::new(1, 2, 3, 4);
    let b = Rgb::new(1, -1, 0, 2);
    assert_eq!(a.add(b), Rgb::new(6, 0, 6, 8));
    assert_eq!(a.sub(b), Rgb::new(-2, 8, 6, 8));
    assert_eq!(a.mul(b), Rgb::new(1, -2, 0, 8));
    assert_eq!(a.scale(3, 5), Rgb::new(3, 6, 9, 20));
    assert_eq!(a.div_scalar(3, 5), Rgb::new(5, 10, 15, 12));
    assert_eq!(a.div_scalar(-3, 5), Rgb::new(-5, -10, -15, 12));
    assert_eq!(a.sum_rgb(), (6, 4));
    assert_eq!(Rgb::new(3, -4, 0, 5).dist_sq(), (25, 25));
}

#[test]
fn absolute_value() {
    let c = Rgb::new(-1, 2, -3, 7);
    assert_eq!(c.to_abs(), Rgb::new(1, 2, 3, 7));
    let mut m = c;
    m.abs();
    assert_eq!(m, Rgb::new(1, 2, 3, 7));
}

#[test]
fn default_is_black() {
    let d = Rgb::default();
    assert_eq!(d, Rgb::new(0, 0, 0, 1));
    assert_eq!(d, Rgb::zero());
    assert_eq!(d.to_bytes(), Rgb8::new(0, 0, 0));
}

#[test]
fn bytes_survive_conversion_to_exact_color() {
    for v in 0..=255u8 {
        let c = Rgb8::new(v, 255 - v, v / 2);
        assert_eq!(Rgb::from(c).to_bytes(), c);
        assert_eq!(Rgb::from(c).to_bytes_fast(), c);
    }
}

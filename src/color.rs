use vstd::prelude::*;

use crate::hex::{format_hex_triple, hex_text, parse_hex_triple, triple_from_hex, HexError};

verus! {

/// A color with one byte per channel.
#[derive(Clone, Copy, Debug, PartialEq, Eq, Structural)]
pub struct Rgb8 {
    pub r: u8,
    pub g: u8,
    pub b: u8,
}

impl Rgb8 {
    pub fn new(r: u8, g: u8, b: u8) -> (c: Rgb8)
        ensures
            c == (Rgb8 { r, g, b }),
    {
        Rgb8 { r, g, b }
    }
}

/// The byte nearest to `x / y`, halves rounded up, after clamping to `0..=255`.
pub open spec fn round_byte(x: int, y: int) -> u8 {
    if x <= 0 {
        0
    } else if x >= 255 * y {
        255
    } else {
        ((2 * x + y) / (2 * y)) as u8
    }
}

/// `x / y` clamped to `0..=255`, with its fraction cut off.
pub open spec fn trunc_byte(x: int, y: int) -> u8 {
    if x <= 0 {
        0
    } else if x >= 255 * y {
        255
    } else {
        (x / y) as u8
    }
}

/// Rounds `x / y` to the nearest byte, clamping to `0..=255` first.
pub fn round_to_byte(x: i128, y: i128) -> (r: u8)
    requires
        0 < y < 0x1_0000_0000_0000_0000,
        -0x1_0000_0000_0000_0000_0000 < x < 0x1_0000_0000_0000_0000_0000,
    ensures
        r == round_byte(x as int, y as int),
{
    if x <= 0 {
        0
    } else if x >= 255 * y {
        255
    } else {
        let q = (2 * x + y) / (2 * y);
        assert(q < 256) by (nonlinear_arith)
            requires
                q == (2 * x + y) / (2 * y),
                0 < x < 255 * y,
                y > 0,
        {
            assert(2 * x + y < 2 * y * 256);
        }
        q as u8
    }
}

/// Cuts `x / y` down to a byte, clamping to `0..=255` first.
pub fn trunc_to_byte(x: i128, y: i128) -> (r: u8)
    requires
        0 < y < 0x1_0000_0000_0000_0000,
        -0x1_0000_0000_0000_0000_0000 < x < 0x1_0000_0000_0000_0000_0000,
    ensures
        r == trunc_byte(x as int, y as int),
{
    if x <= 0 {
        0
    } else if x >= 255 * y {
        255
    } else {
        let q = x / y;
        assert(q < 256) by (nonlinear_arith)
            requires
                q == x / y,
                0 < x < 255 * y,
                y > 0,
        {
        }
        q as u8
    }
}


/// A color whose channels are exact fractions `r / den`, `g / den`, `b / den`;
/// `0` is none of a channel and `1` is all of it. Channels are not limited to
/// `0..=1`: a difference of two colors may be negative.
#[derive(Clone, Copy, Debug, PartialEq, Eq, Structural)]
pub struct Rgb {
    pub r: i64,
    pub g: i64,
    pub b: i64,
    pub den: i64,
}

/// A value within `-i32::MAX..=i32::MAX`.
pub open spec fn in_i32(v: i64) -> bool {
    -i32::MAX <= v <= i32::MAX
}

impl Rgb {
    /// The denominator is positive.
    pub open spec fn wf(self) -> bool {
        self.den > 0
    }

    /// Well formed, with every field within `i32`, so that the arithmetic
    /// below cannot leave `i64`.
    pub open spec fn fits(self) -> bool {
        &&& self.wf()
        &&& in_i32(self.r)
        &&& in_i32(self.g)
        &&& in_i32(self.b)
        &&& in_i32(self.den)
    }

    /// The color with channels `r / den`, `g / den`, `b / den`.
    pub fn new(r: i64, g: i64, b: i64, den: i64) -> (c: Rgb)
        requires
            den > 0,
        ensures
            c == (Rgb { r, g, b, den }),
            c.wf(),
    {
        Rgb { r, g, b, den }
    }

    /// The color that bytes stand for: each channel is the byte over 255.
    pub fn new_u8(r: u8, g: u8, b: u8) -> (c: Rgb)
        ensures
            c == (Rgb { r: r as i64, g: g as i64, b: b as i64, den: 255 }),
            c.fits(),
    {
        Rgb { r: r as i64, g: g as i64, b: b as i64, den: 255 }
    }

    /// Black.
    pub fn zero() -> (c: Rgb)
        ensures
            c == (Rgb { r: 0, g: 0, b: 0, den: 1 }),
            c.fits(),
    {
        Rgb { r: 0, g: 0, b: 0, den: 1 }
    }

    /// Channel by channel sum.
    pub fn add(self, o: Rgb) -> (c: Rgb)
        requires
            self.fits(),
            o.fits(),
        ensures
            c.r == self.r * o.den + o.r * self.den,
            c.g == self.g * o.den + o.g * self.den,
            c.b == self.b * o.den + o.b * self.den,
            c.den == self.den * o.den,
            c.wf(),
    {
        proof { lemma_products_fit(self, o); }
        Rgb {
            r: self.r * o.den + o.r * self.den,
            g: self.g * o.den + o.g * self.den,
            b: self.b * o.den + o.b * self.den,
            den: self.den * o.den,
        }
    }

    /// Channel by channel difference `self - o`.
    pub fn sub(self, o: Rgb) -> (c: Rgb)
        requires
            self.fits(),
            o.fits(),
        ensures
            c.r == self.r * o.den - o.r * self.den,
            c.g == self.g * o.den - o.g * self.den,
            c.b == self.b * o.den - o.b * self.den,
            c.den == self.den * o.den,
            c.wf(),
    {
        proof { lemma_products_fit(self, o); }
        Rgb {
            r: self.r * o.den - o.r * self.den,
            g: self.g * o.den - o.g * self.den,
            b: self.b * o.den - o.b * self.den,
            den: self.den * o.den,
        }
    }

    /// Channel by channel product.
    pub fn mul(self, o: Rgb) -> (c: Rgb)
        requires
            self.fits(),
            o.fits(),
        ensures
            c.r == self.r * o.r,
            c.g == self.g * o.g,
            c.b == self.b * o.b,
            c.den == self.den * o.den,
            c.wf(),
    {
        proof { lemma_products_fit(self, o); }
        Rgb { r: self.r * o.r, g: self.g * o.g, b: self.b * o.b, den: self.den * o.den }
    }

    /// Every channel times the fraction `num / den`.
    pub fn scale(self, num: i32, den: i32) -> (c: Rgb)
        requires
            self.fits(),
            den > 0,
        ensures
            c.r == self.r * num,
            c.g == self.g * num,
            c.b == self.b * num,
            c.den == self.den * den,
            c.wf(),
    {
        proof {
            lemma_product_fits(self.r as int, num as int);
            lemma_product_fits(self.g as int, num as int);
            lemma_product_fits(self.b as int, num as int);
            lemma_product_fits(self.den as int, den as int);
            lemma_positive_product(self.den as int, den as int);
        }
        Rgb {
            r: self.r * num as i64,
            g: self.g * num as i64,
            b: self.b * num as i64,
            den: self.den * den as i64,
        }
    }

    /// Every channel divided by the fraction `num / den`, which is not zero.
    pub fn div_scalar(self, num: i32, den: i32) -> (c: Rgb)
        requires
            self.fits(),
            num != 0,
            den > 0,
        ensures
            c.r == sign(num as int) * (self.r * den),
            c.g == sign(num as int) * (self.g * den),
            c.b == sign(num as int) * (self.b * den),
            c.den == sign(num as int) * (self.den * num),
            c.wf(),
    {
        let n = num as i64;
        let d = den as i64;
        proof {
            lemma_product_fits(self.r as int, d as int);
            lemma_product_fits(self.g as int, d as int);
            lemma_product_fits(self.b as int, d as int);
            lemma_product_fits(self.den as int, n as int);
            lemma_positive_product(self.den as int, sign(n as int) * n);
            assert(sign(n as int) * (self.den * n) == self.den * (sign(n as int) * n)) by (nonlinear_arith);
        }
        if n > 0 {
            Rgb { r: self.r * d, g: self.g * d, b: self.b * d, den: self.den * n }
        } else {
            Rgb { r: -(self.r * d), g: -(self.g * d), b: -(self.b * d), den: -(self.den * n) }
        }
    }

    /// Makes every channel non-negative.
    pub fn abs(&mut self)
        requires
            old(self).fits(),
        ensures
            final(self).r == abs_i64(old(self).r),
            final(self).g == abs_i64(old(self).g),
            final(self).b == abs_i64(old(self).b),
            final(self).den == old(self).den,
            final(self).fits(),
    {
        *self = self.to_abs();
    }

    /// The color with every channel made non-negative.
    pub fn to_abs(self) -> (c: Rgb)
        requires
            self.fits(),
        ensures
            c.r == abs_i64(self.r),
            c.g == abs_i64(self.g),
            c.b == abs_i64(self.b),
            c.den == self.den,
            c.fits(),
    {
        Rgb {
            r: if self.r < 0 { -self.r } else { self.r },
            g: if self.g < 0 { -self.g } else { self.g },
            b: if self.b < 0 { -self.b } else { self.b },
            den: self.den,
        }
    }

    /// The sum of the three channels, as the fraction `(num, den)`.
    pub fn sum_rgb(&self) -> (s: (i64, i64))
        requires
            self.fits(),
        ensures
            s.0 == self.r + self.g + self.b,
            s.1 == self.den,
    {
        (self.r + self.g + self.b, self.den)
    }

    /// The squared length of the color as a vector, as the fraction
    /// `(r² + g² + b², den²)`. Its square root is the Euclidean distance of
    /// the color from black.
    pub fn dist_sq(&self) -> (d: (i128, i128))
        requires
            self.fits(),
        ensures
            d.0 == self.r * self.r + self.g * self.g + self.b * self.b,
            d.1 == self.den * self.den,
    {
        proof { lemma_products_fit(*self, *self); }
        let r = self.r as i128;
        let g = self.g as i128;
        let b = self.b as i128;
        let d = self.den as i128;
        (r * r + g * g + b * b, d * d)
    }
}

/// The bytes of a color under the rounding policy: each channel clamped to
/// `0..=1`, scaled by 255 and rounded to the nearest byte.
pub open spec fn rounded_bytes(c: Rgb) -> Rgb8 {
    Rgb8 {
        r: round_byte(255 * c.r, c.den as int),
        g: round_byte(255 * c.g, c.den as int),
        b: round_byte(255 * c.b, c.den as int),
    }
}

/// The bytes of a color under the truncating policy: each channel clamped to
/// `0..=1`, scaled by 255 and cut down to a whole byte.
pub open spec fn truncated_bytes(c: Rgb) -> Rgb8 {
    Rgb8 {
        r: trunc_byte(255 * c.r, c.den as int),
        g: trunc_byte(255 * c.g, c.den as int),
        b: trunc_byte(255 * c.b, c.den as int),
    }
}

/// A type that can be read from a `rrggbb` or `#rrggbb` string.
pub trait FromHexStr: Sized {
    /// What `from_hex` gives for a string.
    spec fn from_hex_spec(s: Seq<char>) -> Result<Self, HexError>;

    fn from_hex(hex: &str) -> (res: Result<Self, HexError>)
        ensures
            res == Self::from_hex_spec(hex@),
    ;
}

impl FromHexStr for Rgb8 {
    open spec fn from_hex_spec(s: Seq<char>) -> Result<Rgb8, HexError> {
        match triple_from_hex(s) {
            Ok(t) => Ok(Rgb8 { r: t.0, g: t.1, b: t.2 }),
            Err(e) => Err(e),
        }
    }

    fn from_hex(hex: &str) -> (res: Result<Rgb8, HexError>) {
        match parse_hex_triple(hex) {
            Ok((r, g, b)) => Ok(Rgb8 { r, g, b }),
            Err(e) => Err(e),
        }
    }
}

impl FromHexStr for Rgb {
    open spec fn from_hex_spec(s: Seq<char>) -> Result<Rgb, HexError> {
        match triple_from_hex(s) {
            Ok(t) => Ok(Rgb { r: t.0 as i64, g: t.1 as i64, b: t.2 as i64, den: 255 }),
            Err(e) => Err(e),
        }
    }

    fn from_hex(hex: &str) -> (res: Result<Rgb, HexError>) {
        match parse_hex_triple(hex) {
            Ok((r, g, b)) => Ok(Rgb::new_u8(r, g, b)),
            Err(e) => Err(e),
        }
    }
}

impl Default for Rgb {
    /// Black.
    fn default() -> (c: Rgb)
        ensures
            c == (Rgb { r: 0, g: 0, b: 0, den: 1 }),
    {
        Rgb::zero()
    }
}

impl From<Rgb8> for Rgb {
    fn from(c: Rgb8) -> (res: Rgb) {
        Rgb::new_u8(c.r, c.g, c.b)
    }
}

impl vstd::std_specs::convert::FromSpecImpl<Rgb8> for Rgb {
    open spec fn obeys_from_spec() -> bool {
        true
    }

    open spec fn from_spec(c: Rgb8) -> Rgb {
        Rgb { r: c.r as i64, g: c.g as i64, b: c.b as i64, den: 255 }
    }
}

impl Rgb {
    /// The bytes of the color under the rounding policy.
    pub fn to_bytes(self) -> (c: Rgb8)
        requires
            self.wf(),
        ensures
            c == rounded_bytes(self),
    {
        let d = self.den as i128;
        Rgb8 {
            r: round_to_byte(255 * self.r as i128, d),
            g: round_to_byte(255 * self.g as i128, d),
            b: round_to_byte(255 * self.b as i128, d),
        }
    }

    /// The bytes of the color under the truncating policy: cheaper than
    /// `to_bytes`, and lower by one where the scaled channel's fraction is at
    /// least one half.
    pub fn to_bytes_fast(self) -> (c: Rgb8)
        requires
            self.wf(),
        ensures
            c == truncated_bytes(self),
    {
        let d = self.den as i128;
        Rgb8 {
            r: trunc_to_byte(255 * self.r as i128, d),
            g: trunc_to_byte(255 * self.g as i128, d),
            b: trunc_to_byte(255 * self.b as i128, d),
        }
    }

    /// The rounded bytes of the color written as `#rrggbb`, in lowercase.
    pub fn to_hex_string(self) -> (s: String)
        requires
            self.wf(),
        ensures
            s@ == hex_text(rounded_bytes(self).r, rounded_bytes(self).g, rounded_bytes(self).b),
    {
        let c = self.to_bytes();
        format_hex_triple(c.r, c.g, c.b)
    }
}

/// Rounding a whole number of bytes gives that number back.
pub proof fn lemma_round_byte_exact(v: int, d: int)
    requires
        0 <= v <= 255,
        d > 0,
    ensures
        round_byte(v * d, d) == v,
{
    if 0 < v < 255 {
        assert(0 < v * d < 255 * d) by (nonlinear_arith)
            requires
                0 < v < 255,
                d > 0,
        ;
        assert(2 * (v * d) + d == v * (2 * d) + d) by (nonlinear_arith);
        vstd::arithmetic::div_mod::lemma_fundamental_div_mod_converse(
            2 * (v * d) + d,
            2 * d,
            v,
            d,
        );
        assert((2 * (v * d) + d) / (2 * d) == v);
    }
    if v == 0 {
        assert(v * d == 0);
    }
    if v == 255 {
        assert(v * d == 255 * d);
    }
}

/// Cutting down a whole number of bytes gives that number back.
pub proof fn lemma_trunc_byte_exact(v: int, d: int)
    requires
        0 <= v <= 255,
        d > 0,
    ensures
        trunc_byte(v * d, d) == v,
{
    if 0 < v < 255 {
        assert(0 < v * d < 255 * d) by (nonlinear_arith)
            requires
                0 < v < 255,
                d > 0,
        ;
        vstd::arithmetic::div_mod::lemma_fundamental_div_mod_converse(v * d, d, v, 0);
    }
    if v == 0 {
        assert(v * d == 0);
    }
    if v == 255 {
        assert(v * d == 255 * d);
    }
}

/// A byte color turned into an exact color and back gives the same bytes,
/// under either policy.
pub proof fn lemma_bytes_round_trip(c: Rgb8)
    ensures
        rounded_bytes(Rgb { r: c.r as i64, g: c.g as i64, b: c.b as i64, den: 255 }) == c,
        truncated_bytes(Rgb { r: c.r as i64, g: c.g as i64, b: c.b as i64, den: 255 }) == c,
{
    lemma_round_byte_exact(c.r as int, 255);
    lemma_round_byte_exact(c.g as int, 255);
    lemma_round_byte_exact(c.b as int, 255);
    lemma_trunc_byte_exact(c.r as int, 255);
    lemma_trunc_byte_exact(c.g as int, 255);
    lemma_trunc_byte_exact(c.b as int, 255);
    assert(255 * c.r == c.r * 255);
    assert(255 * c.g == c.g * 255);
    assert(255 * c.b == c.b * 255);
}

/// Writing the color of three bytes as a hex string and reading the string
/// back gives the same three bytes.
pub proof fn lemma_hex_round_trip(r: u8, g: u8, b: u8)
    ensures
        ({
            let c = Rgb { r: r as i64, g: g as i64, b: b as i64, den: 255 };
            let t = rounded_bytes(c);
            <Rgb8 as FromHexStr>::from_hex_spec(hex_text(t.r, t.g, t.b)) == Ok::<Rgb8, HexError>(
                Rgb8 { r, g, b },
            )
        }),
{
    lemma_round_byte_exact(r as int, 255);
    lemma_round_byte_exact(g as int, 255);
    lemma_round_byte_exact(b as int, 255);
    assert(255 * r == r * 255);
    assert(255 * g == g * 255);
    assert(255 * b == b * 255);
    crate::hex::lemma_hex_text_round_trip(r, g, b);
}

/// The absolute value.
pub open spec fn abs_i64(v: i64) -> int {
    if v < 0 { -v } else { v as int }
}

/// `1` for a positive value, `-1` for a negative one.
pub open spec fn sign(v: int) -> int {
    if v < 0 { -1 } else { 1 }
}

proof fn lemma_products_fit(a: Rgb, o: Rgb)
    requires
        a.fits(),
        o.fits(),
    ensures
        -0x4000_0000_0000_0000 < a.r * o.den < 0x4000_0000_0000_0000,
        -0x4000_0000_0000_0000 < a.g * o.den < 0x4000_0000_0000_0000,
        -0x4000_0000_0000_0000 < a.b * o.den < 0x4000_0000_0000_0000,
        -0x4000_0000_0000_0000 < o.r * a.den < 0x4000_0000_0000_0000,
        -0x4000_0000_0000_0000 < o.g * a.den < 0x4000_0000_0000_0000,
        -0x4000_0000_0000_0000 < o.b * a.den < 0x4000_0000_0000_0000,
        -0x4000_0000_0000_0000 < a.r * o.r < 0x4000_0000_0000_0000,
        -0x4000_0000_0000_0000 < a.g * o.g < 0x4000_0000_0000_0000,
        -0x4000_0000_0000_0000 < a.b * o.b < 0x4000_0000_0000_0000,
        0 < a.den * o.den < 0x4000_0000_0000_0000,
{
    lemma_product_fits(a.r as int, o.den as int);
    lemma_product_fits(a.g as int, o.den as int);
    lemma_product_fits(a.b as int, o.den as int);
    lemma_product_fits(o.r as int, a.den as int);
    lemma_product_fits(o.g as int, a.den as int);
    lemma_product_fits(o.b as int, a.den as int);
    lemma_product_fits(a.r as int, o.r as int);
    lemma_product_fits(a.g as int, o.g as int);
    lemma_product_fits(a.b as int, o.b as int);
    lemma_product_fits(a.den as int, o.den as int);
    lemma_positive_product(a.den as int, o.den as int);
}

proof fn lemma_product_fits(x: int, y: int)
    requires
        -0x7fff_ffff <= x <= 0x7fff_ffff,
        -0x8000_0000 <= y <= 0x8000_0000,
    ensures
        -0x4000_0000_0000_0000 < x * y < 0x4000_0000_0000_0000,
{
    assert(-0x4000_0000_0000_0000 < x * y < 0x4000_0000_0000_0000) by (nonlinear_arith)
        requires
            -0x7fff_ffff <= x <= 0x7fff_ffff,
            -0x8000_0000 <= y <= 0x8000_0000,
    ;
}

proof fn lemma_positive_product(x: int, y: int)
    requires
        x > 0,
        y > 0,
    ensures
        x * y > 0,
{
    assert(x * y > 0) by (nonlinear_arith)
        requires
            x > 0,
            y > 0,
    ;
}

} // verus!

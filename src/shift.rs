use vstd::prelude::*;

use crate::color::{lemma_round_byte_exact, round_byte, round_to_byte, Rgb8};

verus! {

/// How far a pixel moves toward its nearest palette color: the fraction
/// `num / den`. `0` leaves the pixel as it is and `1` replaces it with the
/// palette color; a value above `1` overshoots and a negative one moves away.
#[derive(Clone, Copy, Debug, PartialEq, Eq, Structural)]
pub struct Blend {
    pub num: i32,
    pub den: i32,
}

impl Blend {
    /// The denominator is positive.
    pub open spec fn wf(self) -> bool {
        self.den > 0
    }

    /// The fraction `num / den`.
    pub fn new(num: i32, den: i32) -> (bl: Blend)
        requires
            den > 0,
        ensures
            bl == (Blend { num, den }),
            bl.wf(),
    {
        Blend { num, den }
    }

    /// The fraction `percent / 100`.
    pub fn from_percent(percent: i32) -> (bl: Blend)
        ensures
            bl == (Blend { num: percent, den: 100 }),
            bl.wf(),
    {
        Blend { num: percent, den: 100 }
    }
}

/// Why a buffer could not be shifted.
#[derive(Clone, Copy, Debug, PartialEq, Eq, Structural)]
pub enum ShiftError {
    /// The buffer's length is not a multiple of three.
    BufferLength,
    /// The palette holds no color.
    EmptyPalette,
    /// The blend factor's denominator is not positive.
    InvalidBlend,
}

/// The squared Euclidean distance of two colors in RGB space, in bytes.
pub open spec fn dist_sq(p: Rgb8, c: Rgb8) -> int {
    (c.r - p.r) * (c.r - p.r) + (c.g - p.g) * (c.g - p.g) + (c.b - p.b) * (c.b - p.b)
}

/// Entry `i` is a nearest entry of the palette to `p`, and the first one.
pub open spec fn is_nearest(pal: Seq<Rgb8>, p: Rgb8, i: int) -> bool {
    &&& 0 <= i < pal.len()
    &&& forall|j: int| 0 <= j < pal.len() ==> dist_sq(p, pal[i]) <= #[trigger] dist_sq(p, pal[j])
    &&& forall|j: int| 0 <= j < i ==> dist_sq(p, pal[i]) < #[trigger] dist_sq(p, pal[j])
}

/// The index of the first nearest entry among the first `n` of the palette.
pub open spec fn nearest_in(pal: Seq<Rgb8>, p: Rgb8, n: int) -> int
    decreases n,
{
    if n <= 1 {
        0
    } else {
        let k = nearest_in(pal, p, n - 1);
        if dist_sq(p, pal[n - 1]) < dist_sq(p, pal[k]) {
            n - 1
        } else {
            k
        }
    }
}

/// The index of the palette entry that `p` moves toward.
pub open spec fn nearest(pal: Seq<Rgb8>, p: Rgb8) -> int {
    nearest_in(pal, p, pal.len() as int)
}

/// A channel `p` moved by the blend factor toward `c` and rounded: the byte
/// nearest to `p + (c - p) * num / den`, clamped to `0..=255`.
pub open spec fn blend_channel(p: u8, c: u8, bl: Blend) -> u8 {
    round_byte(p * bl.den + (c - p) * bl.num, bl.den as int)
}

/// The pixel `p` moved by the blend factor toward its nearest palette color.
pub open spec fn shifted_pixel(pal: Seq<Rgb8>, p: Rgb8, bl: Blend) -> Rgb8 {
    let c = pal[nearest(pal, p)];
    Rgb8 {
        r: blend_channel(p.r, c.r, bl),
        g: blend_channel(p.g, c.g, bl),
        b: blend_channel(p.b, c.b, bl),
    }
}

/// Pixel `k` of a buffer of three bytes per pixel.
pub open spec fn pixel_at(buf: Seq<u8>, k: int) -> Rgb8 {
    Rgb8 { r: buf[3 * k], g: buf[3 * k + 1], b: buf[3 * k + 2] }
}

/// Channel `i` of a color: red, green, then blue.
pub open spec fn channel(c: Rgb8, i: int) -> u8 {
    if i == 0 {
        c.r
    } else if i == 1 {
        c.g
    } else {
        c.b
    }
}

/// The buffer with every pixel shifted toward the palette.
pub open spec fn shifted_buffer(buf: Seq<u8>, pal: Seq<Rgb8>, bl: Blend) -> Seq<u8> {
    Seq::new(buf.len(), |j: int| channel(shifted_pixel(pal, pixel_at(buf, j / 3), bl), j % 3))
}

proof fn lemma_nearest_in(pal: Seq<Rgb8>, p: Rgb8, n: int)
    requires
        0 < n <= pal.len(),
    ensures
        0 <= nearest_in(pal, p, n) < n,
        forall|j: int|
            0 <= j < n ==> dist_sq(p, pal[nearest_in(pal, p, n)]) <= #[trigger] dist_sq(p, pal[j]),
        forall|j: int|
            0 <= j < nearest_in(pal, p, n) ==> dist_sq(p, pal[nearest_in(pal, p, n)])
                < #[trigger] dist_sq(p, pal[j]),
    decreases n,
{
    if n > 1 {
        lemma_nearest_in(pal, p, n - 1);
    }
}

/// The entry that a pixel moves toward is a nearest one, and the first of
/// those in palette order.
pub proof fn lemma_nearest_is_first_nearest(pal: Seq<Rgb8>, p: Rgb8)
    requires
        pal.len() > 0,
    ensures
        is_nearest(pal, p, nearest(pal, p)),
{
    lemma_nearest_in(pal, p, pal.len() as int);
}

/// Of two palette entries at the same distance from a pixel, the later one
/// is never the entry that the pixel moves toward.
pub proof fn lemma_tie_goes_to_first(pal: Seq<Rgb8>, p: Rgb8, i: int, j: int)
    requires
        0 <= i < j < pal.len(),
        dist_sq(p, pal[i]) == dist_sq(p, pal[j]),
    ensures
        nearest(pal, p) != j,
{
    lemma_nearest_is_first_nearest(pal, p);
    assert(dist_sq(p, pal[nearest(pal, p)]) <= dist_sq(p, pal[i]));
}

/// The squared distance of two colors.
pub fn pixel_dist_sq(p: Rgb8, c: Rgb8) -> (d: u32)
    ensures
        d == dist_sq(p, c),
{
    let dr = c.r as i32 - p.r as i32;
    let dg = c.g as i32 - p.g as i32;
    let db = c.b as i32 - p.b as i32;
    assert(dr * dr <= 65025 && dg * dg <= 65025 && db * db <= 65025) by (nonlinear_arith)
        requires
            -255 <= dr <= 255,
            -255 <= dg <= 255,
            -255 <= db <= 255,
    ;
    assert(dr * dr >= 0 && dg * dg >= 0 && db * db >= 0) by (nonlinear_arith);
    (dr * dr + dg * dg + db * db) as u32
}

/// The index of the first palette entry nearest to `p`.
pub fn nearest_index(palette: &Vec<Rgb8>, p: Rgb8) -> (i: usize)
    requires
        palette@.len() > 0,
    ensures
        i == nearest(palette@, p),
        is_nearest(palette@, p, i as int),
{
    let mut best: usize = 0;
    let mut best_d = pixel_dist_sq(p, palette[0]);
    let mut k: usize = 1;
    while k < palette.len()
        invariant
            1 <= k <= palette@.len(),
            best == nearest_in(palette@, p, k as int),
            best < k,
            best_d == dist_sq(p, palette@[best as int]),
        decreases palette@.len() - k,
    {
        let d = pixel_dist_sq(p, palette[k]);
        if d < best_d {
            best = k;
            best_d = d;
        }
        k += 1;
    }
    proof {
        lemma_nearest_is_first_nearest(palette@, p);
    }
    best
}

/// One channel moved by the blend factor toward `c`, under the rounding policy.
fn blend_channel_exec(p: u8, c: u8, bl: Blend) -> (v: u8)
    requires
        bl.wf(),
    ensures
        v == blend_channel(p, c, bl),
{
    let ghost (pi, ci, dn, nm) = (p as int, c as int, bl.den as int, bl.num as int);
    assert(-0x100_0000_0000 < pi * dn < 0x100_0000_0000) by (nonlinear_arith)
        requires
            0 <= pi <= 255,
            0 < dn <= i32::MAX,
    ;
    assert(-0x100_0000_0000 < (ci - pi) * nm < 0x100_0000_0000) by (nonlinear_arith)
        requires
            -255 <= ci - pi <= 255,
            i32::MIN <= nm <= i32::MAX,
    ;
    let pd = p as i64 * bl.den as i64;
    let cn = (c as i64 - p as i64) * bl.num as i64;
    round_to_byte((pd + cn) as i128, bl.den as i128)
}

/// The pixel moved by the blend factor toward its nearest palette color.
pub fn shift_pixel(p: Rgb8, palette: &Vec<Rgb8>, blend: Blend) -> (c: Rgb8)
    requires
        palette@.len() > 0,
        blend.wf(),
    ensures
        c == shifted_pixel(palette@, p, blend),
{
    let t = palette[nearest_index(palette, p)];
    Rgb8 {
        r: blend_channel_exec(p.r, t.r, blend),
        g: blend_channel_exec(p.g, t.g, blend),
        b: blend_channel_exec(p.b, t.b, blend),
    }
}

/// Moves every pixel of a buffer of three bytes per pixel toward its nearest
/// palette color. Each pixel's new bytes depend on its own old bytes alone.
pub fn shift_to_palette(buffer: &mut Vec<u8>, palette: &Vec<Rgb8>, blend: Blend)
    requires
        old(buffer)@.len() % 3 == 0,
        palette@.len() > 0,
        blend.wf(),
    ensures
        final(buffer)@ == shifted_buffer(old(buffer)@, palette@, blend),
{
    let ghost start = buffer@;
    let n = buffer.len();
    let mut i: usize = 0;
    while i < n
        invariant
            n == buffer@.len() == start.len(),
            n % 3 == 0,
            i % 3 == 0,
            i <= n,
            palette@.len() > 0,
            blend.wf(),
            forall|j: int| 0 <= j < i ==> buffer@[j] == #[trigger] shifted_buffer(start, palette@, blend)[j],
            forall|j: int| i <= j < n ==> buffer@[j] == start[j],
        decreases n - i,
    {
        let p = Rgb8 { r: buffer[i], g: buffer[i + 1], b: buffer[i + 2] };
        assert(p == pixel_at(start, i as int / 3));
        let c = shift_pixel(p, palette, blend);
        buffer.set(i, c.r);
        buffer.set(i + 1, c.g);
        buffer.set(i + 2, c.b);
        assert forall|j: int| i <= j < i + 3 implies buffer@[j] == #[trigger] shifted_buffer(
            start,
            palette@,
            blend,
        )[j] by {
            assert(j / 3 == i / 3);
        }
        i += 3;
    }
    assert(buffer@ =~= shifted_buffer(start, palette@, blend));
}

/// Checks what `shift_to_palette` needs, then shifts the buffer; leaves it
/// as it is and says what was wrong otherwise.
pub fn try_shift_to_palette(buffer: &mut Vec<u8>, palette: &Vec<Rgb8>, blend: Blend) -> (res:
    Result<(), ShiftError>)
    ensures
        old(buffer)@.len() % 3 != 0 ==> res == Err::<(), ShiftError>(ShiftError::BufferLength),
        old(buffer)@.len() % 3 == 0 && palette@.len() == 0 ==> res == Err::<(), ShiftError>(
            ShiftError::EmptyPalette,
        ),
        old(buffer)@.len() % 3 == 0 && palette@.len() > 0 && !blend.wf() ==> res == Err::<
            (),
            ShiftError,
        >(ShiftError::InvalidBlend),
        res is Err ==> final(buffer)@ == old(buffer)@,
        res is Ok <==> (old(buffer)@.len() % 3 == 0 && palette@.len() > 0 && blend.wf()),
        res is Ok ==> final(buffer)@ == shifted_buffer(old(buffer)@, palette@, blend),
{
    if buffer.len() % 3 != 0 {
        return Err(ShiftError::BufferLength);
    }
    if palette.len() == 0 {
        return Err(ShiftError::EmptyPalette);
    }
    if blend.den <= 0 {
        return Err(ShiftError::InvalidBlend);
    }
    shift_to_palette(buffer, palette, blend);
    Ok(())
}

/// Pixel `k` of the shifted buffer is pixel `k` of the buffer, shifted: it
/// depends on that pixel, the palette and the blend factor alone.
pub proof fn lemma_shift_is_per_pixel(buf: Seq<u8>, pal: Seq<Rgb8>, bl: Blend, k: int)
    requires
        buf.len() % 3 == 0,
        0 <= k < buf.len() / 3,
    ensures
        pixel_at(shifted_buffer(buf, pal, bl), k) == shifted_pixel(pal, pixel_at(buf, k), bl),
{
    assert((3 * k) / 3 == k && (3 * k) % 3 == 0);
    assert((3 * k + 1) / 3 == k && (3 * k + 1) % 3 == 1);
    assert((3 * k + 2) / 3 == k && (3 * k + 2) % 3 == 2);
}

/// Shifting two buffers laid end to end gives the two shifted buffers laid
/// end to end: the pixels may be split into runs and each run shifted on its
/// own, in any order or at once, with the same result.
pub proof fn lemma_shift_splits(a: Seq<u8>, b: Seq<u8>, pal: Seq<Rgb8>, bl: Blend)
    requires
        a.len() % 3 == 0,
        b.len() % 3 == 0,
    ensures
        shifted_buffer(a + b, pal, bl) == shifted_buffer(a, pal, bl) + shifted_buffer(b, pal, bl),
{
    let ab = a + b;
    assert forall|j: int| 0 <= j < ab.len() implies #[trigger] shifted_buffer(ab, pal, bl)[j] == (
    shifted_buffer(a, pal, bl) + shifted_buffer(b, pal, bl))[j] by {
        if j < a.len() {
            assert(3 * (j / 3) + 2 < a.len());
            assert(pixel_at(ab, j / 3) == pixel_at(a, j / 3));
        } else {
            let i = j - a.len();
            assert(j / 3 == i / 3 + a.len() / 3 && j % 3 == i % 3);
            assert(3 * (j / 3) == 3 * (i / 3) + a.len());
            assert(3 * (i / 3) + 2 < b.len());
            assert(pixel_at(ab, j / 3) == pixel_at(b, i / 3));
        }
    }
    assert(shifted_buffer(ab, pal, bl) =~= shifted_buffer(a, pal, bl) + shifted_buffer(b, pal, bl));
}

/// Where the pixels of `b` are pixels of `a` in another order (pixel `k` of
/// `b` is pixel `perm(k)` of `a`), the shifted pixels come in that order too.
pub proof fn lemma_shift_follows_reordering(
    a: Seq<u8>,
    b: Seq<u8>,
    pal: Seq<Rgb8>,
    bl: Blend,
    perm: spec_fn(int) -> int,
)
    requires
        a.len() % 3 == 0,
        b.len() % 3 == 0,
        forall|k: int|
            0 <= k < b.len() / 3 ==> 0 <= #[trigger] perm(k) < a.len() / 3 && pixel_at(b, k)
                == pixel_at(a, perm(k)),
    ensures
        forall|k: int|
            0 <= k < b.len() / 3 ==> #[trigger] pixel_at(shifted_buffer(b, pal, bl), k)
                == pixel_at(shifted_buffer(a, pal, bl), perm(k)),
{
    assert forall|k: int| 0 <= k < b.len() / 3 implies #[trigger] pixel_at(
        shifted_buffer(b, pal, bl),
        k,
    ) == pixel_at(shifted_buffer(a, pal, bl), perm(k)) by {
        lemma_shift_is_per_pixel(b, pal, bl, k);
        lemma_shift_is_per_pixel(a, pal, bl, perm(k));
    }
}

/// With a blend factor of zero every byte stays as it was.
pub proof fn lemma_zero_blend_keeps_buffer(buf: Seq<u8>, pal: Seq<Rgb8>, bl: Blend)
    requires
        buf.len() % 3 == 0,
        bl.wf(),
        bl.num == 0,
    ensures
        shifted_buffer(buf, pal, bl) == buf,
{
    assert forall|j: int| 0 <= j < buf.len() implies #[trigger] shifted_buffer(buf, pal, bl)[j]
        == buf[j] by {
        let k = j / 3;
        assert(3 * k + 2 < buf.len());
        let p = pixel_at(buf, k);
        let c = pal[nearest(pal, p)];
        lemma_round_byte_exact(p.r as int, bl.den as int);
        lemma_round_byte_exact(p.g as int, bl.den as int);
        lemma_round_byte_exact(p.b as int, bl.den as int);
        assert(p.r * bl.den + (c.r - p.r) * bl.num == p.r * bl.den);
        assert(p.g * bl.den + (c.g - p.g) * bl.num == p.g * bl.den);
        assert(p.b * bl.den + (c.b - p.b) * bl.num == p.b * bl.den);
    }
    assert(shifted_buffer(buf, pal, bl) =~= buf);
}

proof fn lemma_full_blend_pixel(pal: Seq<Rgb8>, p: Rgb8, bl: Blend)
    requires
        pal.len() > 0,
        bl.wf(),
        bl.num == bl.den,
    ensures
        shifted_pixel(pal, p, bl) == pal[nearest(pal, p)],
{
    let c = pal[nearest(pal, p)];
    let d = bl.den as int;
    lemma_round_byte_exact(c.r as int, d);
    lemma_round_byte_exact(c.g as int, d);
    lemma_round_byte_exact(c.b as int, d);
    assert(p.r * d + (c.r - p.r) * d == c.r * d) by (nonlinear_arith);
    assert(p.g * d + (c.g - p.g) * d == c.g * d) by (nonlinear_arith);
    assert(p.b * d + (c.b - p.b) * d == c.b * d) by (nonlinear_arith);
}

/// With a blend factor of one every pixel becomes exactly its nearest
/// palette color, the first of them in palette order.
pub proof fn lemma_full_blend_snaps(buf: Seq<u8>, pal: Seq<Rgb8>, bl: Blend)
    requires
        buf.len() % 3 == 0,
        pal.len() > 0,
        bl.wf(),
        bl.num == bl.den,
    ensures
        forall|k: int|
            0 <= k < buf.len() / 3 ==> #[trigger] pixel_at(shifted_buffer(buf, pal, bl), k)
                == pal[nearest(pal, pixel_at(buf, k))],
        forall|k: int|
            0 <= k < buf.len() / 3 ==> is_nearest(
                pal,
                #[trigger] pixel_at(buf, k),
                nearest(pal, pixel_at(buf, k)),
            ),
{
    assert forall|k: int| 0 <= k < buf.len() / 3 implies #[trigger] pixel_at(
        shifted_buffer(buf, pal, bl),
        k,
    ) == pal[nearest(pal, pixel_at(buf, k))] by {
        lemma_shift_is_per_pixel(buf, pal, bl, k);
        lemma_full_blend_pixel(pal, pixel_at(buf, k), bl);
    }
    assert forall|k: int| 0 <= k < buf.len() / 3 implies is_nearest(
        pal,
        #[trigger] pixel_at(buf, k),
        nearest(pal, pixel_at(buf, k)),
    ) by {
        lemma_nearest_is_first_nearest(pal, pixel_at(buf, k));
    }
}

} // verus!

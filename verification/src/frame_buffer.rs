//! Decoding the bits of a variable (or of a whole array of variables) as the
//! pixels of a frame buffer image.
use crate::color::Rgb;
use crate::text::{
    chars_of, digits_value, is_nat_text, nat_binary, parse_i64, parse_i64_spec,
};
use crate::wave_refs::{scope_name, ScopeRef, VariableRef};
use vstd::arithmetic::power2::pow2;
use vstd::prelude::*;

verus! {

/// The value of a variable at the cursor, as the frame buffer reads it.
#[derive(Debug, PartialEq, Eq)]
pub enum VariableValue {
    /// A natural number, given by its decimal text as `Display` writes it, and read through
    /// its binary digits.
    BigUint(String),
    /// A string of bit characters; `'1'` is a set bit, anything else a clear one.
    String(String),
}

/// How the bits of a pixel are turned into a color.
#[derive(Debug, Clone, Copy, PartialEq, Eq, Structural)]
pub struct PixelColorSettings {
    pub rgb_mode: bool,
    pub grayscale_bits: u8,
    pub r_bits: u8,
    pub g_bits: u8,
    pub b_bits: u8,
}

/// Layout and color settings of the frame buffer view.
#[derive(Debug, Clone, Copy, PartialEq, Eq, Structural)]
pub struct FrameBufferSettings {
    pub pixels_per_row: usize,
    pub square_pixels: bool,
    pub color_settings: PixelColorSettings,
}

/// The index range selected at one level of array nesting.
#[derive(Debug, Clone, Copy, PartialEq, Eq, Structural)]
pub struct ArrayLevel {
    pub min_index: i64,
    pub max_index: i64,
    pub first_index: i64,
    pub last_index: i64,
}

impl Default for PixelColorSettings {
    fn default() -> (res: Self)
        ensures
            res == (PixelColorSettings {
                rgb_mode: false,
                grayscale_bits: 1,
                r_bits: 3,
                g_bits: 3,
                b_bits: 2,
            }),
    {
        PixelColorSettings { rgb_mode: false, grayscale_bits: 1, r_bits: 3, g_bits: 3, b_bits: 2 }
    }
}

impl Default for FrameBufferSettings {
    fn default() -> (res: Self)
        ensures
            res.pixels_per_row == 16,
            res.square_pixels,
            res.color_settings == (PixelColorSettings {
                rgb_mode: false,
                grayscale_bits: 1,
                r_bits: 3,
                g_bits: 3,
                b_bits: 2,
            }),
    {
        FrameBufferSettings {
            pixels_per_row: 16,
            square_pixels: true,
            color_settings: PixelColorSettings::default(),
        }
    }
}

/// The bit at index `i`, reading past either end as a clear bit.
pub open spec fn bit_at(bits: Seq<bool>, i: int) -> int {
    if 0 <= i < bits.len() && bits[i] {
        1
    } else {
        0
    }
}

/// The number whose binary digits, most significant first, are the `k` bits from `start`.
pub open spec fn bits_value(bits: Seq<bool>, start: int, k: nat) -> int
    decreases k,
{
    if k == 0 {
        0
    } else {
        2 * bits_value(bits, start, (k - 1) as nat) + bit_at(bits, start + k - 1)
    }
}

/// The `len` bits from `start`, read as a number and kept to its low 16 bits.
pub open spec fn padded_value(bits: Seq<bool>, start: int, len: nat) -> int {
    bits_value(bits, start, len) % 65536
}

/// A value of `bits` bits scaled to the range `0..=255` (kept to 8 bits).
pub open spec fn scaled_to_u8(value: int, bits: nat) -> int {
    if bits == 0 {
        0
    } else {
        ((value * 255) / (pow2(bits) - 1)) % 256
    }
}

/// The gray level of the pixel whose bits start at `start`.
pub open spec fn gray_level(bits: Seq<bool>, start: int, gray_bits: nat) -> int {
    scaled_to_u8(padded_value(bits, start, gray_bits), gray_bits)
}

/// The color of the pixel whose red, green and blue bits start at `start`.
pub open spec fn rgb_pixel(bits: Seq<bool>, start: int, r: nat, g: nat, b: nat) -> Rgb {
    Rgb {
        r: scaled_to_u8(padded_value(bits, start, r), r) as u8,
        g: scaled_to_u8(padded_value(bits, start + r, g), g) as u8,
        b: scaled_to_u8(padded_value(bits, start + r + g, b), b) as u8,
    }
}

/// `count` pixels of `step` bits each are exactly enough to cover `len` bits.
pub open spec fn pixel_count_covers(count: int, step: int, len: int) -> bool {
    count * step >= len && (count == 0 || (count - 1) * step < len)
}

/// Reads `len` bits from `start` as an unsigned number, most significant bit
/// first; bits past the end of `bits` read as zero.
pub fn bits_to_u16_padded(bits: &[bool], start: usize, len: usize) -> (value: u16)
    requires
        len == 0 || start + len - 1 <= usize::MAX,
    ensures
        value == padded_value(bits@, start as int, len as nat),
{
    let mut value = 0u16;
    let mut offset: usize = 0;
    while offset < len
        invariant
            offset <= len,
            len == 0 || start + len - 1 <= usize::MAX,
            value == bits_value(bits@, start as int, offset as nat) % 65536,
        decreases len - offset,
    {
        let idx = start + offset;
        let b: u16 = if idx < bits.len() && bits[idx] {
            1
        } else {
            0
        };
        let ghost old_value = value;
        value = (value << 1) | b;
        proof {
            let v = old_value;
            assert(((v << 1u16) | b) as int == (2 * (v as int) + b as int) % 65536) by (bit_vector)
                requires
                    b <= 1,
            ;
            let a = bits_value(bits@, start as int, offset as nat);
            assert(b as int == bit_at(bits@, start + offset));
            vstd::arithmetic::div_mod::lemma_mul_mod_noop_right(2, a, 65536);
            vstd::arithmetic::div_mod::lemma_add_mod_noop(2 * a, b as int, 65536);
            vstd::arithmetic::div_mod::lemma_add_mod_noop(2 * (a % 65536), b as int, 65536);
            vstd::arithmetic::div_mod::lemma_mod_twice(2 * a, 65536);
            vstd::arithmetic::div_mod::lemma_small_mod(b as nat, 65536);
        }
        offset += 1;
    }
    value
}

/// Scales a value of `bits` bits to the range `0..=255`.
pub fn scale_to_u8(value: u16, bits: usize) -> (res: u8)
    requires
        bits < 16,
    ensures
        res == scaled_to_u8(value as int, bits as nat),
{
    if bits == 0 {
        return 0;
    }
    proof {
        vstd::arithmetic::power2::lemma_pow2_pos(bits as nat);
        vstd::arithmetic::power2::lemma2_to64();
        vstd::arithmetic::power2::lemma_pow2_strictly_increases(bits as nat, 16);
        vstd::bits::lemma_u16_shl_is_mul(1, bits as u16);
    }
    let max_in = (1u16 << (bits as u16)) - 1;
    assert(max_in >= 1) by {
        vstd::arithmetic::power2::lemma_pow2_strictly_increases(0, bits as nat);
    }
    let scaled = ((value as u32) * 255) / (max_in as u32);
    (scaled % 256) as u8
}

} // verus!

verus! {

/// Scaling keeps the ends of the range: the value zero gives 0 and the largest value of
/// `bits` bits gives 255.
pub proof fn law_scale_full_range(bits: nat)
    requires
        1 <= bits < 16,
    ensures
        scaled_to_u8(0, bits) == 0,
        scaled_to_u8(pow2(bits) - 1, bits) == 255,
{
    vstd::arithmetic::power2::lemma_pow2_strictly_increases(0, bits);
    vstd::arithmetic::power2::lemma2_to64();
    let m = pow2(bits) - 1;
    assert(m >= 1);
    vstd::arithmetic::div_mod::lemma_div_multiples_vanish(255, m);
    assert(m * 255 == 255 * m) by (nonlinear_arith);
    assert(0int * 255 == 0);
    vstd::arithmetic::div_mod::lemma_div_basics(m);
}

/// Scaling a value of `bits` bits to `0..=255` rounds down: the result is the largest level
/// whose share of the full range does not exceed the value's share, `res / 255 <= value / max`
/// with `max = 2^bits - 1`, and it never exceeds 255.
pub proof fn law_scale_rounds_down(value: int, bits: nat)
    requires
        1 <= bits < 16,
        0 <= value < pow2(bits),
    ensures
        ({
            let res = scaled_to_u8(value, bits);
            let max = pow2(bits) - 1;
            &&& 0 <= res <= 255
            &&& res * max <= value * 255
            &&& value * 255 < (res + 1) * max
        }),
{
    vstd::arithmetic::power2::lemma_pow2_strictly_increases(0, bits);
    vstd::arithmetic::power2::lemma2_to64();
    let max = pow2(bits) - 1;
    assert(max >= 1);
    assert(value <= max);
    let q = (value * 255) / max;
    vstd::arithmetic::div_mod::lemma_fundamental_div_mod(value * 255, max);
    assert(0 <= value * 255 <= max * 255) by (nonlinear_arith)
        requires
            0 <= value <= max,
    ;
    assert(0 <= q <= 255) by (nonlinear_arith)
        requires
            q == (value * 255) / max,
            0 <= value * 255 <= max * 255,
            max >= 1,
    ;
    vstd::arithmetic::div_mod::lemma_small_mod(q as nat, 256);
    assert(q * max <= value * 255 < (q + 1) * max) by (nonlinear_arith)
        requires
            value * 255 == max * q + (value * 255) % max,
            0 <= (value * 255) % max < max,
    ;
}

/// Bits are read most significant first: the first of `k` bits weighs `2^(k-1)`, and the
/// remaining `k - 1` bits follow as a number of their own.
pub proof fn law_first_bit_weighs_most(bits: Seq<bool>, start: int, k: nat)
    requires
        k >= 1,
    ensures
        bits_value(bits, start, k) == bit_at(bits, start) * pow2((k - 1) as nat) + bits_value(
            bits,
            start + 1,
            (k - 1) as nat,
        ),
    decreases k,
{
    vstd::arithmetic::power2::lemma2_to64();
    assert(bits_value(bits, start, k) == 2 * bits_value(bits, start, (k - 1) as nat) + bit_at(
        bits,
        start + k - 1,
    ));
    if k == 1 {
        assert(bits_value(bits, start, 0) == 0);
        assert(bits_value(bits, start + 1, 0) == 0);
    } else {
        law_first_bit_weighs_most(bits, start, (k - 1) as nat);
        vstd::arithmetic::power2::lemma_pow2_unfold((k - 1) as nat);
        assert(bits_value(bits, start + 1, (k - 1) as nat) == 2 * bits_value(
            bits,
            start + 1,
            (k - 2) as nat,
        ) + bit_at(bits, start + 1 + (k - 1) - 1));
        assert(bit_at(bits, start) * pow2((k - 1) as nat) == 2 * (bit_at(bits, start) * pow2(
            (k - 2) as nat,
        ))) by (nonlinear_arith)
            requires
                pow2((k - 1) as nat) == 2 * pow2((k - 2) as nat),
        ;
    }
}

/// Every one of the `k` bits from `start` is set.
pub open spec fn window_set(bits: Seq<bool>, start: int, k: nat) -> bool {
    forall|j: int| start <= j < start + k ==> #[trigger] bit_at(bits, j) == 1
}

/// None of the `k` bits from `start` is set (a bit past either end counts as clear).
pub open spec fn window_clear(bits: Seq<bool>, start: int, k: nat) -> bool {
    forall|j: int| start <= j < start + k ==> #[trigger] bit_at(bits, j) == 0
}

/// `a` and `b` hold the same `k` bits from `start` (a bit past either end counts as clear).
pub open spec fn same_window(a: Seq<bool>, b: Seq<bool>, start: int, k: nat) -> bool {
    forall|j: int| start <= j < start + k ==> #[trigger] bit_at(a, j) == bit_at(b, j)
}

proof fn lemma_window_values(bits: Seq<bool>, other: Seq<bool>, start: int, k: nat)
    ensures
        window_set(bits, start, k) ==> bits_value(bits, start, k) == pow2(k) - 1,
        window_clear(bits, start, k) ==> bits_value(bits, start, k) == 0,
        same_window(bits, other, start, k) ==> bits_value(bits, start, k) == bits_value(
            other,
            start,
            k,
        ),
        0 <= bits_value(bits, start, k) < pow2(k),
    decreases k,
{
    if k == 0 {
        vstd::arithmetic::power2::lemma2_to64();
    } else {
        let k1 = (k - 1) as nat;
        lemma_window_values(bits, other, start, k1);
        vstd::arithmetic::power2::lemma_pow2_unfold(k);
        let j = start + k - 1;
        if window_set(bits, start, k) {
            assert(bit_at(bits, j) == 1);
            assert forall|x: int| start <= x < start + k1 implies #[trigger] bit_at(bits, x) == 1 by {
                assert(start <= x < start + k);
            }
        }
        if window_clear(bits, start, k) {
            assert(bit_at(bits, j) == 0);
            assert forall|x: int| start <= x < start + k1 implies #[trigger] bit_at(bits, x) == 0 by {
                assert(start <= x < start + k);
            }
        }
        if same_window(bits, other, start, k) {
            assert(bit_at(bits, j) == bit_at(other, j));
            assert forall|x: int| start <= x < start + k1 implies #[trigger] bit_at(bits, x)
                == bit_at(other, x) by {
                assert(start <= x < start + k);
            }
        }
    }
}

/// What a channel of `w` bits from `start` scales to: the full value 255 when all its bits
/// are set, 0 when none is, and the same value for two bit strings that agree on its bits.
proof fn lemma_channel(bits: Seq<bool>, other: Seq<bool>, start: int, w: nat)
    requires
        1 <= w < 16,
    ensures
        window_set(bits, start, w) ==> scaled_to_u8(padded_value(bits, start, w), w) == 255,
        window_clear(bits, start, w) ==> scaled_to_u8(padded_value(bits, start, w), w) == 0,
        same_window(bits, other, start, w) ==> scaled_to_u8(padded_value(bits, start, w), w)
            == scaled_to_u8(padded_value(other, start, w), w),
{
    lemma_window_values(bits, other, start, w);
    lemma_window_values(other, bits, start, w);
    vstd::arithmetic::power2::lemma_pow2_strictly_increases(w, 16);
    vstd::arithmetic::power2::lemma2_to64();
    vstd::arithmetic::div_mod::lemma_small_mod(bits_value(bits, start, w) as nat, 65536);
    vstd::arithmetic::div_mod::lemma_small_mod(bits_value(other, start, w) as nat, 65536);
    law_scale_full_range(w);
}

/// The channels of an RGB pixel read their own bits, one after another: red the `r` bits from
/// the pixel's start, green the `g` bits after them, blue the `b` bits after those. A channel
/// whose bits are all set is at full strength (255), one whose bits are all clear is off (0),
/// and a channel depends on its own bits only.
pub proof fn law_rgb_channels_read_their_own_bits(
    bits: Seq<bool>,
    other: Seq<bool>,
    start: int,
    r: nat,
    g: nat,
    b: nat,
)
    requires
        1 <= r < 16,
        1 <= g < 16,
        1 <= b < 16,
    ensures
        window_set(bits, start, r) ==> rgb_pixel(bits, start, r, g, b).r == 255,
        window_clear(bits, start, r) ==> rgb_pixel(bits, start, r, g, b).r == 0,
        window_set(bits, start + r, g) ==> rgb_pixel(bits, start, r, g, b).g == 255,
        window_clear(bits, start + r, g) ==> rgb_pixel(bits, start, r, g, b).g == 0,
        window_set(bits, start + r + g, b) ==> rgb_pixel(bits, start, r, g, b).b == 255,
        window_clear(bits, start + r + g, b) ==> rgb_pixel(bits, start, r, g, b).b == 0,
        same_window(bits, other, start, r) ==> rgb_pixel(bits, start, r, g, b).r == rgb_pixel(
            other,
            start,
            r,
            g,
            b,
        ).r,
        same_window(bits, other, start + r, g) ==> rgb_pixel(bits, start, r, g, b).g
            == rgb_pixel(other, start, r, g, b).g,
        same_window(bits, other, start + r + g, b) ==> rgb_pixel(bits, start, r, g, b).b
            == rgb_pixel(other, start, r, g, b).b,
{
    lemma_channel(bits, other, start, r);
    lemma_channel(bits, other, start + r, g);
    lemma_channel(bits, other, start + r + g, b);
}

/// The pixels that `decode_rgb_pixels` gives (any `res` that meets its contract) read red,
/// green and blue in that order from each group of `r + g + b` bits: pixel `i`'s red is full
/// when the `r` bits from `i * (r + g + b)` are all set and off when they are all clear, and
/// likewise green for the next `g` bits and blue for the `b` bits after those.
pub proof fn law_decoded_rgb_channel_order(
    bits: Seq<bool>,
    res: Seq<Rgb>,
    r: nat,
    g: nat,
    b: nat,
    i: int,
)
    requires
        1 <= r < 16,
        1 <= g < 16,
        1 <= b < 16,
        0 <= i < res.len(),
        forall|k: int| 0 <= k < res.len() ==> #[trigger] res[k] == rgb_pixel(bits, k * (r + g + b), r, g, b),
    ensures
        window_set(bits, i * (r + g + b), r) ==> res[i].r == 255,
        window_clear(bits, i * (r + g + b), r) ==> res[i].r == 0,
        window_set(bits, i * (r + g + b) + r, g) ==> res[i].g == 255,
        window_clear(bits, i * (r + g + b) + r, g) ==> res[i].g == 0,
        window_set(bits, i * (r + g + b) + r + g, b) ==> res[i].b == 255,
        window_clear(bits, i * (r + g + b) + r + g, b) ==> res[i].b == 0,
{
    assert(res[i] == rgb_pixel(bits, i * (r + g + b), r, g, b));
    law_rgb_channels_read_their_own_bits(bits, bits, i * (r + g + b), r, g, b);
}

/// A gray pixel is white (255) when all of its bits are set and black (0) when none is, and
/// depends on its own bits only.
pub proof fn law_gray_reads_its_own_bits(bits: Seq<bool>, other: Seq<bool>, start: int, w: nat)
    requires
        1 <= w < 16,
    ensures
        window_set(bits, start, w) ==> gray_pixel(bits, start, w) == (Rgb { r: 255, g: 255, b: 255 }),
        window_clear(bits, start, w) ==> gray_pixel(bits, start, w) == (Rgb { r: 0, g: 0, b: 0 }),
        same_window(bits, other, start, w) ==> gray_pixel(bits, start, w) == gray_pixel(
            other,
            start,
            w,
        ),
{
    lemma_channel(bits, other, start, w);
}

/// The gray pixel whose bits start at `start`.
pub open spec fn gray_pixel(bits: Seq<bool>, start: int, gray_bits: nat) -> Rgb {
    let level = gray_level(bits, start, gray_bits) as u8;
    Rgb { r: level, g: level, b: level }
}

/// Decodes consecutive groups of `grayscale_bits` bits as gray pixels.
pub fn decode_grayscale_pixels(bits: &[bool], grayscale_bits: usize) -> (res: Vec<Rgb>)
    requires
        bits@.len() == 0 || grayscale_bits < 16,
        bits@.len() <= isize::MAX,
    ensures
        pixel_count_covers(
            res@.len() as int,
            (if grayscale_bits > 1 {
                grayscale_bits
            } else {
                1
            }) as int,
            bits@.len() as int,
        ),
        forall|i: int|
            0 <= i < res@.len() ==> #[trigger] res@[i] == gray_pixel(
                bits@,
                i * (if grayscale_bits > 1 {
                    grayscale_bits
                } else {
                    1
                }) as int,
                grayscale_bits as nat,
            ),
{
    let step: usize = if grayscale_bits > 1 {
        grayscale_bits
    } else {
        1
    };
    let len = bits.len();
    let mut out: Vec<Rgb> = Vec::new();
    let mut start: usize = 0;
    assert(out@.len() * step == 0) by (nonlinear_arith)
        requires
            out@.len() == 0,
    ;
    while start < len
        invariant
            len == bits@.len() <= isize::MAX,
            1 <= step < 16 || len == 0,
            step == (if grayscale_bits > 1 {
                grayscale_bits
            } else {
                1
            }),
            grayscale_bits < 16 || len == 0,
            start == out@.len() * step,
            step >= 1,
            out@.len() == 0 || start - step < len,
            start <= len + step,
            forall|i: int|
                0 <= i < out@.len() ==> #[trigger] out@[i] == gray_pixel(
                    bits@,
                    i * step,
                    grayscale_bits as nat,
                ),
        decreases len + step - start,
    {
        let value = bits_to_u16_padded(bits, start, grayscale_bits);
        let gray = scale_to_u8(value, grayscale_bits);
        out.push(Rgb::from_rgb(gray, gray, gray));
        assert(start + step == out@.len() * step) by (nonlinear_arith)
            requires
                start == (out@.len() - 1) * step,
        ;
        start = start + step;
    }
    assert(pixel_count_covers(out@.len() as int, step as int, len as int)) by (nonlinear_arith)
        requires
            start == out@.len() * step,
            step >= 1,
            out@.len() == 0 || start - step < len,
            start <= len + step,
            start >= len,
    ;
    out
}

/// Decodes consecutive groups of `r_bits + g_bits + b_bits` bits as pixels
/// whose red, green and blue parts follow each other.
pub fn decode_rgb_pixels(bits: &[bool], r_bits: usize, g_bits: usize, b_bits: usize) -> (res: Vec<
    Rgb,
>)
    requires
        bits@.len() == 0 || (r_bits < 16 && g_bits < 16 && b_bits < 16),
        r_bits + g_bits + b_bits <= usize::MAX,
        bits@.len() <= isize::MAX,
    ensures
        pixel_count_covers(
            res@.len() as int,
            (if r_bits + g_bits + b_bits > 1 {
                r_bits + g_bits + b_bits
            } else {
                1
            }) as int,
            bits@.len() as int,
        ),
        forall|i: int|
            0 <= i < res@.len() ==> #[trigger] res@[i] == rgb_pixel(
                bits@,
                i * (if r_bits + g_bits + b_bits > 1 {
                    r_bits + g_bits + b_bits
                } else {
                    1
                }) as int,
                r_bits as nat,
                g_bits as nat,
                b_bits as nat,
            ),
{
    let bits_per_pixel = r_bits + g_bits + b_bits;
    let step: usize = if bits_per_pixel > 1 {
        bits_per_pixel
    } else {
        1
    };
    let len = bits.len();
    let mut out: Vec<Rgb> = Vec::new();
    let mut start: usize = 0;
    assert(out@.len() * step == 0) by (nonlinear_arith)
        requires
            out@.len() == 0,
    ;
    while start < len
        invariant
            len == bits@.len() <= isize::MAX,
            bits_per_pixel == r_bits + g_bits + b_bits,
            step == (if bits_per_pixel > 1 {
                bits_per_pixel
            } else {
                1
            }),
            len == 0 || (r_bits < 16 && g_bits < 16 && b_bits < 16),
            start == out@.len() * step,
            step >= 1,
            out@.len() == 0 || start - step < len,
            start <= len + step,
            forall|i: int|
                0 <= i < out@.len() ==> #[trigger] out@[i] == rgb_pixel(
                    bits@,
                    i * step,
                    r_bits as nat,
                    g_bits as nat,
                    b_bits as nat,
                ),
        decreases len + step - start,
    {
        let red = scale_to_u8(bits_to_u16_padded(bits, start, r_bits), r_bits);
        let green = scale_to_u8(bits_to_u16_padded(bits, start + r_bits, g_bits), g_bits);
        let blue = scale_to_u8(
            bits_to_u16_padded(bits, start + r_bits + g_bits, b_bits),
            b_bits,
        );
        out.push(Rgb::from_rgb(red, green, blue));
        assert(start + step == out@.len() * step) by (nonlinear_arith)
            requires
                start == (out@.len() - 1) * step,
        ;
        start = start + step;
    }
    assert(pixel_count_covers(out@.len() as int, step as int, len as int)) by (nonlinear_arith)
        requires
            start == out@.len() * step,
            step >= 1,
            out@.len() == 0 || start - step < len,
            start <= len + step,
            start >= len,
    ;
    out
}

/// The characters of a value as the frame buffer reads them: the binary
/// digits of a number, or the characters of a string.
pub open spec fn value_bit_chars(value: VariableValue) -> Seq<char> {
    match value {
        VariableValue::BigUint(v) => nat_binary(digits_value(v@) as nat),
        VariableValue::String(s) => s@,
    }
}

/// A number is given by the text `Display` writes for it.
pub open spec fn value_well_formed(value: VariableValue) -> bool {
    match value {
        VariableValue::BigUint(v) => is_nat_text(v@),
        VariableValue::String(_) => true,
    }
}

/// The binary digits of the natural number written in decimal in `text`: read by `num`'s
/// `BigUint` `FromStr` and written by its `to_str_radix(2)`.
#[verifier::external_body]
fn biguint_binary(text: &str) -> (res: String)
    requires
        is_nat_text(text@),
    ensures
        res@ == nat_binary(digits_value(text@) as nat),
{
    text.parse::<num::BigUint>().unwrap().to_str_radix(2)
}

/// The characters of the bits of `value`.
pub fn value_text(value: &VariableValue) -> (res: String)
    requires
        value_well_formed(*value),
    ensures
        res@ == value_bit_chars(*value),
{
    match value {
        VariableValue::BigUint(v) => biguint_binary(v.as_str()),
        VariableValue::String(s) => s.clone(),
    }
}

/// The bits of a value, padded with leading clear bits or cut to its last
/// `word_length` bits.
pub open spec fn value_bits(value: VariableValue, word_length: nat) -> Seq<bool> {
    let chars = value_bit_chars(value);
    let bits = Seq::new(chars.len(), |i: int| chars[i] == '1');
    if bits.len() < word_length {
        Seq::new((word_length - bits.len()) as nat, |i: int| false) + bits
    } else {
        bits.skip(bits.len() - word_length)
    }
}

/// The bits of `value`, most significant first, fitted to `word_length`.
pub fn frame_buffer_bits(value: &VariableValue, word_length: usize) -> (res: Vec<bool>)
    requires
        value_well_formed(*value),
    ensures
        res@ == value_bits(*value, word_length as nat),
{
    let text = value_text(value);
    let chars: Vec<char> = chars_of(text.as_str());
    let len = chars.len();
    let mut bits: Vec<bool> = Vec::new();
    let mut i: usize = 0;
    while i < len
        invariant
            i <= len == chars@.len(),
            bits@ == Seq::new(i as nat, |k: int| chars@[k] == '1'),
        decreases len - i,
    {
        bits.push(chars[i] == '1');
        i += 1;
        assert(bits@ =~= Seq::new(i as nat, |k: int| chars@[k] == '1'));
    }
    let mut out: Vec<bool> = Vec::new();
    if len < word_length {
        let mut z: usize = 0;
        while z < word_length - len
            invariant
                len < word_length,
                z <= word_length - len,
                out@ == Seq::new(z as nat, |k: int| false),
            decreases word_length - len - z,
        {
            out.push(false);
            z += 1;
            assert(out@ =~= Seq::new(z as nat, |k: int| false));
        }
        let mut j: usize = 0;
        while j < len
            invariant
                j <= len == bits@.len(),
                len < word_length,
                out@ == Seq::new((word_length - len) as nat, |k: int| false) + bits@.take(j as int),
            decreases len - j,
        {
            out.push(bits[j]);
            j += 1;
            assert(out@ =~= Seq::new((word_length - len) as nat, |k: int| false) + bits@.take(
                j as int,
            ));
        }
        assert(bits@.take(len as int) =~= bits@);
    } else {
        let mut j: usize = len - word_length;
        while j < len
            invariant
                word_length <= len,
                len - word_length <= j <= len == bits@.len(),
                out@ == bits@.subrange(len - word_length, j as int),
            decreases len - j,
        {
            out.push(bits[j]);
            j += 1;
            assert(out@ =~= bits@.subrange(len - word_length, j as int));
        }
        assert(bits@.subrange(len - word_length, len as int) =~= bits@.skip(len - word_length));
    }
    out
}

/// A name read as an array index: a number, or a number between brackets.
pub open spec fn index_name_value(name: Seq<char>) -> Option<i64> {
    match parse_i64_spec(name) {
        Some(v) => Some(v),
        None => if name.len() >= 2 && name[0] == '[' && name.last() == ']' {
            parse_i64_spec(name.subrange(1, name.len() - 1))
        } else {
            None
        },
    }
}

/// Parses a name that is a number or a number between brackets.
pub fn parse_index_name(name: &String) -> (res: Option<i64>)
    ensures
        res == index_name_value(name@),
{
    let chars = chars_of(name.as_str());
    match parse_i64(chars.as_slice()) {
        Some(v) => Some(v),
        None => {
            let len = chars.len();
            if len >= 2 && chars[0] == '[' && chars[len - 1] == ']' {
                let mut inner: Vec<char> = Vec::new();
                crate::text::push_range(&mut inner, chars.as_slice(), 1, len - 1);
                parse_i64(inner.as_slice())
            } else {
                None
            }
        },
    }
}

/// The array index of a scope, taken from its name; `i64::MAX` when the name is no index.
pub fn scope_array_index(scope_ref: &ScopeRef) -> (res: i64)
    ensures
        res == (match index_name_value(scope_name(scope_ref.strs@)) {
            Some(v) => v,
            None => i64::MAX,
        }),
{
    let name = scope_ref.name();
    match parse_index_name(&name) {
        Some(v) => v,
        None => i64::MAX,
    }
}

/// The array index of a variable: its explicit index, else the index its name
/// gives; `i64::MAX` when there is neither.
pub fn variable_array_index(var_ref: &VariableRef) -> (res: i64)
    ensures
        res == (match var_ref.index {
            Some(i) => i,
            None => match index_name_value(var_ref.name@) {
                Some(v) => v,
                None => i64::MAX,
            },
        }),
{
    match var_ref.index {
        Some(i) => i,
        None => match parse_index_name(&var_ref.name) {
            Some(v) => v,
            None => i64::MAX,
        },
    }
}

} // verus!

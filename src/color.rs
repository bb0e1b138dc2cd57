//! Cell colors, their quantization, and their `#RRGGBB` rendering.

use vstd::arithmetic::div_mod::{
    lemma_div_is_ordered, lemma_div_pos_is_pos, lemma_fundamental_div_mod,
    lemma_fundamental_div_mod_converse,
};
use vstd::arithmetic::mul::lemma_mul_inequality;
use vstd::prelude::*;

verus! {

/// The step to which every channel is rounded before two cells are compared.
pub const ROUNDING_STEP: u8 = 10;

/// One cell color: three 8-bit channels.
#[derive(Clone, Copy, Debug, PartialEq, Eq, Structural)]
pub struct Rgb {
    pub r: u8,
    pub g: u8,
    pub b: u8,
}

/// A channel rounded to the nearest multiple of `step` (halves round up),
/// clamped to 255.
pub open spec fn round_channel(n: int, step: int) -> int {
    let v = ((2 * n + step) / (2 * step)) * step;
    if v > 255 {
        255
    } else {
        v
    }
}

/// The quantized form of a color: each channel rounded to the nearest
/// multiple of `ROUNDING_STEP`.
pub open spec fn quantize_spec(c: Rgb) -> Rgb {
    Rgb {
        r: round_channel(c.r as int, ROUNDING_STEP as int) as u8,
        g: round_channel(c.g as int, ROUNDING_STEP as int) as u8,
        b: round_channel(c.b as int, ROUNDING_STEP as int) as u8,
    }
}

/// The sixteen hexadecimal digits, upper case.
pub open spec fn hex_digits() -> Seq<char> {
    seq!['0', '1', '2', '3', '4', '5', '6', '7', '8', '9', 'A', 'B', 'C', 'D', 'E', 'F']
}

/// Two upper-case hexadecimal digits for one byte.
pub open spec fn hex_byte(b: u8) -> Seq<char> {
    seq![hex_digits()[b as int / 16], hex_digits()[b as int % 16]]
}

/// The `#RRGGBB` text of a color.
pub open spec fn hex_text(c: Rgb) -> Seq<char> {
    seq!['#'] + hex_byte(c.r) + hex_byte(c.g) + hex_byte(c.b)
}

proof fn lemma_round_channel_bounds(n: int, step: int)
    requires
        0 <= n <= 255,
        0 < step,
    ensures
        0 <= round_channel(n, step) <= 255,
        ((2 * n + step) / (2 * step)) * step * 2 <= 2 * n + step,
{
    let k = (2 * n + step) / (2 * step);
    lemma_fundamental_div_mod(2 * n + step, 2 * step);
    lemma_div_pos_is_pos(2 * n + step, 2 * step);
    assert(k * step * 2 <= 2 * n + step) by (nonlinear_arith)
        requires
            2 * n + step == (2 * step) * k + (2 * n + step) % (2 * step),
            (2 * n + step) % (2 * step) >= 0,
    ;
    assert(k * step >= 0) by (nonlinear_arith)
        requires
            k >= 0,
            step > 0,
    ;
}

/// Rounding a channel that is already rounded leaves it as it is, for any
/// positive step.
pub proof fn lemma_round_channel_idempotent(n: int, step: int)
    requires
        0 <= n <= 255,
        0 < step,
    ensures
        round_channel(round_channel(n, step), step) == round_channel(n, step),
{
    let k = (2 * n + step) / (2 * step);
    let v = k * step;
    lemma_round_channel_bounds(n, step);
    lemma_div_pos_is_pos(2 * n + step, 2 * step);
    if v <= 255 {
        assert(2 * v + step == k * (2 * step) + step) by (nonlinear_arith)
            requires
                v == k * step,
        ;
        lemma_fundamental_div_mod_converse(2 * v + step, 2 * step, k, step);
    } else {
        let j = (2 * 255 + step) / (2 * step);
        lemma_div_is_ordered(2 * n + step, 2 * 255 + step, 2 * step);
        lemma_mul_inequality(k, j, step);
        lemma_round_channel_bounds(255, step);
    }
}

/// Quantizing an already quantized color gives the same color.
pub proof fn lemma_quantize_idempotent(c: Rgb)
    ensures
        quantize_spec(quantize_spec(c)) == quantize_spec(c),
{
    let s = ROUNDING_STEP as int;
    lemma_round_channel_bounds(c.r as int, s);
    lemma_round_channel_bounds(c.g as int, s);
    lemma_round_channel_bounds(c.b as int, s);
    lemma_round_channel_idempotent(c.r as int, s);
    lemma_round_channel_idempotent(c.g as int, s);
    lemma_round_channel_idempotent(c.b as int, s);
}

/// Rounds `n` to the nearest multiple of `factor` (halves round up), clamped
/// to 255.
pub fn round_to_nearest(n: u8, factor: u8) -> (r: u8)
    requires
        factor > 0,
    ensures
        r as int == round_channel(n as int, factor as int),
{
    proof {
        lemma_round_channel_bounds(n as int, factor as int);
    }
    let k: u32 = (2 * n as u32 + factor as u32) / (2 * factor as u32);
    let v: u32 = k * factor as u32;
    if v > 255 {
        255
    } else {
        v as u8
    }
}

/// The quantized form of `c`.
pub fn quantize(c: Rgb) -> (r: Rgb)
    ensures
        r == quantize_spec(c),
{
    Rgb {
        r: round_to_nearest(c.r, ROUNDING_STEP),
        g: round_to_nearest(c.g, ROUNDING_STEP),
        b: round_to_nearest(c.b, ROUNDING_STEP),
    }
}

/// Appends the two hexadecimal digits of `b` to `out`.
fn push_hex_byte(out: &mut String, b: u8)
    ensures
        final(out)@ == old(out)@ + hex_byte(b),
{
    let digits: &str = "0123456789ABCDEF";
    proof {
        reveal_strlit("0123456789ABCDEF");
        assert(digits@ == hex_digits());
    }
    let hi: usize = (b / 16) as usize;
    let lo: usize = (b % 16) as usize;
    out.append(digits.substring_ascii(hi, hi + 1));
    out.append(digits.substring_ascii(lo, lo + 1));
    proof {
        assert(final(out)@ =~= old(out)@ + hex_byte(b));
    }
}

/// The `#RRGGBB` text of `c`, exactly as given (no quantization).
pub fn hex_string(c: Rgb) -> (s: String)
    ensures
        s@ == hex_text(c),
{
    let mut s = String::from_str("#");
    proof {
        reveal_strlit("#");
    }
    push_hex_byte(&mut s, c.r);
    push_hex_byte(&mut s, c.g);
    push_hex_byte(&mut s, c.b);
    assert(s@ =~= hex_text(c));
    s
}

/// The `#RRGGBB` text of the quantized form of the color `[r, g, b]`.
pub fn rgb_to_rounded_hex_color_string(c: [u8; 3]) -> (s: String)
    ensures
        s@ == hex_text(quantize_spec(Rgb { r: c[0], g: c[1], b: c[2] })),
{
    hex_string(quantize(Rgb { r: c[0], g: c[1], b: c[2] }))
}

/// The `#RRGGBB` text of the quantized form of the color `[r, g, b]`; the
/// same text as `rgb_to_rounded_hex_color_string`.
pub fn to_hex_color(c: [u8; 3]) -> (s: String)
    ensures
        s@ == hex_text(quantize_spec(Rgb { r: c[0], g: c[1], b: c[2] })),
{
    rgb_to_rounded_hex_color_string(c)
}

} // verus!

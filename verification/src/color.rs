//! Colors and two-color gradients. A gradient maps a tier index to a sample
//! interpolated channel by channel between its two endpoint colors.

use vstd::prelude::*;

verus! {

/// An RGBA color with 8-bit channels.
#[derive(Clone, Copy, Debug, PartialEq, Eq, Structural, Hash)]
pub struct Color {
    pub r: u8,
    pub g: u8,
    pub b: u8,
    pub a: u8,
}

impl Color {
    /// A fully opaque color from its three channels.
    pub fn rgb(r: u8, g: u8, b: u8) -> (c: Color)
        ensures
            c == (Color { r, g, b, a: 255 }),
    {
        Color { r, g, b, a: 255 }
    }
}

/// A two-color gradient from the `low` endpoint (lowest tier) to the `high`
/// endpoint (highest tier).
#[derive(Clone, Copy, Debug, PartialEq, Eq, Structural, Hash)]
pub struct Gradient {
    pub low: Color,
    pub high: Color,
}

/// Linear interpolation of one channel: `t / steps` of the way from `lo` to
/// `hi`, rounded toward `lo`.
pub open spec fn spec_lerp_channel(lo: u8, hi: u8, t: int, steps: int) -> u8
    recommends
        0 <= t <= steps,
        1 <= steps,
{
    if hi >= lo {
        (lo + ((hi - lo) * t) / steps) as u8
    } else {
        (lo - ((lo - hi) * t) / steps) as u8
    }
}

/// The gradient sample for tier `tier` of `num_tiers`: each channel moves
/// `tier / (num_tiers - 1)` of the way from the low to the high endpoint.
/// With a single tier the low endpoint is used.
pub open spec fn spec_sample(g: Gradient, tier: int, num_tiers: int) -> Color {
    let steps = if num_tiers >= 2 {
        num_tiers - 1
    } else {
        1
    };
    Color {
        r: spec_lerp_channel(g.low.r, g.high.r, tier, steps),
        g: spec_lerp_channel(g.low.g, g.high.g, tier, steps),
        b: spec_lerp_channel(g.low.b, g.high.b, tier, steps),
        a: spec_lerp_channel(g.low.a, g.high.a, tier, steps),
    }
}

/// One channel of the interpolation, by unsigned arithmetic in both
/// directions so that rounding is always toward the low endpoint.
fn lerp_channel(lo: u8, hi: u8, t: usize, steps: usize) -> (c: u8)
    requires
        t <= steps,
        1 <= steps,
    ensures
        c == spec_lerp_channel(lo, hi, t as int, steps as int),
{
    if hi >= lo {
        let d: u128 = (hi - lo) as u128;
        proof {
            lemma_channel_product_fits(d as int, t as int);
            lemma_scaled_fraction_bounded(d as int, t as int, steps as int);
        }
        let add: u128 = (d * (t as u128)) / (steps as u128);
        lo + (add as u8)
    } else {
        let d: u128 = (lo - hi) as u128;
        proof {
            lemma_channel_product_fits(d as int, t as int);
            lemma_scaled_fraction_bounded(d as int, t as int, steps as int);
        }
        let sub: u128 = (d * (t as u128)) / (steps as u128);
        lo - (sub as u8)
    }
}

/// A channel difference times a tier index fits in 128 bits.
proof fn lemma_channel_product_fits(d: int, t: int)
    by (nonlinear_arith)
    requires
        0 <= d < 256,
        0 <= t < 18_446_744_073_709_551_616,
    ensures
        0 <= d * t < 0x1_0000_0000_0000_0000_0000_0000_0000_0000,
{
}

/// `(d * t) / steps` stays within `[0, d]` when `0 <= t <= steps`.
proof fn lemma_scaled_fraction_bounded(d: int, t: int, steps: int)
    by (nonlinear_arith)
    requires
        0 <= d,
        0 <= t <= steps,
        1 <= steps,
    ensures
        0 <= (d * t) / steps <= d,
{
}

impl Gradient {
    /// The color for tier `tier` out of `num_tiers`.
    pub fn sample(&self, tier: usize, num_tiers: usize) -> (c: Color)
        requires
            1 <= num_tiers,
            tier < num_tiers,
        ensures
            c == spec_sample(*self, tier as int, num_tiers as int),
    {
        let steps: usize = if num_tiers >= 2 {
            num_tiers - 1
        } else {
            1
        };
        Color {
            r: lerp_channel(self.low.r, self.high.r, tier, steps),
            g: lerp_channel(self.low.g, self.high.g, tier, steps),
            b: lerp_channel(self.low.b, self.high.b, tier, steps),
            a: lerp_channel(self.low.a, self.high.a, tier, steps),
        }
    }
}

} // verus!

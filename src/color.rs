//! RGBA colors and their interpolation.
use vstd::prelude::*;
use crate::fixed::ONE;

verus! {

#[derive(Clone, Copy, Debug, PartialEq, Eq, Structural)]
pub struct Color {
    pub r: u8,
    pub g: u8,
    pub b: u8,
    pub a: u8,
}

impl Color {
    pub fn new(r: u8, g: u8, b: u8, a: u8) -> (c: Color)
        ensures
            c == (Color { r, g, b, a }),
    {
        Color { r, g, b, a }
    }
}

/// One channel of `a + (b - a) * t`, `t` in thousandths, rounded toward zero
/// and saturated into `0..=255`.
pub open spec fn lerp_channel_spec(a: u8, b: u8, t: int) -> u8 {
    let n = a * ONE + (b - a) * t;
    if n < 0 {
        0
    } else if n / (ONE as int) > 255 {
        255
    } else {
        (n / (ONE as int)) as u8
    }
}

pub open spec fn colorlerp_spec(s: Color, e: Color, t: int) -> Color {
    Color {
        r: lerp_channel_spec(s.r, e.r, t),
        g: lerp_channel_spec(s.g, e.g, t),
        b: lerp_channel_spec(s.b, e.b, t),
        a: lerp_channel_spec(s.a, e.a, t),
    }
}

fn lerp_channel(a: u8, b: u8, t: i64) -> (r: u8)
    ensures
        r == lerp_channel_spec(a, b, t as int),
{
    let d: i128 = b as i128 - a as i128;
    assert(-255 * 0x8000_0000_0000_0000i128 <= d * t as i128 <= 255 * 0x8000_0000_0000_0000i128)
        by (nonlinear_arith)
        requires
            -255 <= d <= 255,
            -0x8000_0000_0000_0000i128 <= t <= 0x8000_0000_0000_0000i128,
    ;
    let dt: i128 = d * t as i128;
    let n: i128 = a as i128 * 1000 + dt;
    if n < 0 {
        0
    } else {
        let q: u128 = (n as u128) / (ONE as u128);
        if q > 255 {
            255
        } else {
            q as u8
        }
    }
}

/// Component-wise interpolation from `starting_color` to `ending_color`;
/// `t` is in thousandths (1000 is the end color) and is not clamped.
pub fn colorlerp(starting_color: Color, ending_color: Color, t: i64) -> (c: Color)
    ensures
        c == colorlerp_spec(starting_color, ending_color, t as int),
{
    Color {
        r: lerp_channel(starting_color.r, ending_color.r, t),
        g: lerp_channel(starting_color.g, ending_color.g, t),
        b: lerp_channel(starting_color.b, ending_color.b, t),
        a: lerp_channel(starting_color.a, ending_color.a, t),
    }
}

/// Interpolating at `t = 0` gives the start color and at `t = 1` the end
/// color, in every channel.
pub proof fn lemma_colorlerp_endpoints(a: Color, b: Color)
    ensures
        colorlerp_spec(a, b, 0) == a,
        colorlerp_spec(a, b, ONE as int) == b,
{
    assert forall|x: u8, y: u8|
        lerp_channel_spec(x, y, 0) == x && lerp_channel_spec(x, y, ONE as int) == y by {
        assert((x * ONE + (y - x) * 0) / (ONE as int) == x) by (nonlinear_arith);
        assert((x * ONE + (y - x) * ONE) / (ONE as int) == y) by (nonlinear_arith);
    }
}

} // verus!

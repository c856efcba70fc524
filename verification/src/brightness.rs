//! How bright a background is.

use vstd::prelude::*;

use crate::binary64::{law_rounded_is_near, round, rounded};
use crate::theme::Color;

verus! {

/// The weights of red, green and blue in the luminance: 0.299, 0.587 and 0.114 in double
/// precision, in units of two to the power of -56.
pub const RED_WEIGHT: u128 = 21545220617340452;

/// See [`RED_WEIGHT`].
pub const GREEN_WEIGHT: u128 = 42297807700263696;

/// See [`RED_WEIGHT`].
pub const BLUE_WEIGHT: u128 = 8214565720323785;

/// Half of the greatest luminance, 128, in units of two to the power of -56.
pub const MIDDLE: u128 = 0x8000_0000_0000_0000;

/// The luminance of a color, in units of two to the power of -56: the weighted sum of its
/// parts in double precision, red and green first.
pub open spec fn luminance(r: u8, g: u8, b: u8) -> nat {
    let red = rounded((RED_WEIGHT * r) as nat);
    let green = rounded((GREEN_WEIGHT * g) as nat);
    let blue = rounded((BLUE_WEIGHT * b) as nat);
    rounded(rounded(red + green) + blue)
}

fn luminance_of(r: u8, g: u8, b: u8) -> (v: u128)
    ensures
        v == luminance(r, g, b),
{
    assert(RED_WEIGHT * r <= RED_WEIGHT * 255) by (nonlinear_arith)
        requires
            r <= 255,
    ;
    assert(GREEN_WEIGHT * g <= GREEN_WEIGHT * 255) by (nonlinear_arith)
        requires
            g <= 255,
    ;
    assert(BLUE_WEIGHT * b <= BLUE_WEIGHT * 255) by (nonlinear_arith)
        requires
            b <= 255,
    ;
    assert(RED_WEIGHT * r >= 0 && GREEN_WEIGHT * g >= 0 && BLUE_WEIGHT * b >= 0)
        by (nonlinear_arith);
    let red: u128 = round(RED_WEIGHT * r as u128);
    let green: u128 = round(GREEN_WEIGHT * g as u128);
    let blue: u128 = round(BLUE_WEIGHT * b as u128);
    round(round(red + green) + blue)
}

/// Whether a background counts as dark. One without color of its own does.
pub open spec fn dark(color: Color) -> bool {
    match color {
        Color::Rgb { r, g, b } => luminance(r, g, b) < MIDDLE,
        _ => true,
    }
}

/// Whether a background counts as light. One without color of its own does not.
pub open spec fn light(color: Color) -> bool {
    match color {
        Color::Rgb { r, g, b } => luminance(r, g, b) > MIDDLE,
        _ => false,
    }
}

/// Returns `true` if `bg` should be treated as a dark background.
pub fn is_dark_bg(bg: Color) -> (v: bool)
    ensures
        v == dark(bg),
{
    match bg {
        Color::Rgb { r, g, b } => luminance_of(r, g, b) < MIDDLE,
        _ => true,
    }
}

/// Determine whether a color represents a light background (luminance above 128).
pub fn is_light_bg(color: Color) -> (v: bool)
    ensures
        v == light(color),
{
    match color {
        Color::Rgb { r, g, b } => luminance_of(r, g, b) > MIDDLE,
        _ => false,
    }
}

/// No background is both dark and light.
pub proof fn law_not_dark_and_light(color: Color)
    ensures
        !(dark(color) && light(color)),
{
}

/// A color is dark where its weighted parts stay below the middle, and light where they go beyond;
/// a background without color of its own is dark.
pub proof fn law_brightness(r: u8, g: u8, b: u8)
    ensures
        299 * r + 587 * g + 114 * b < 128000 ==> dark(Color::Rgb { r, g, b }) && !light(
            Color::Rgb { r, g, b },
        ),
        299 * r + 587 * g + 114 * b > 128000 ==> light(Color::Rgb { r, g, b }) && !dark(
            Color::Rgb { r, g, b },
        ),
        dark(Color::Reset) && !light(Color::Reset),
{
    let x = (RED_WEIGHT * r) as nat;
    let y = (GREEN_WEIGHT * g) as nat;
    let z = (BLUE_WEIGHT * b) as nat;
    assert(x == 21545220617340452 * r) by (nonlinear_arith)
        requires
            x == RED_WEIGHT * r,
            RED_WEIGHT == 21545220617340452,
    ;
    assert(y == 42297807700263696 * g) by (nonlinear_arith)
        requires
            y == GREEN_WEIGHT * g,
            GREEN_WEIGHT == 42297807700263696,
    ;
    assert(z == 8214565720323785 * b) by (nonlinear_arith)
        requires
            z == BLUE_WEIGHT * b,
            BLUE_WEIGHT == 8214565720323785,
    ;
    law_rounded_is_near(x);
    law_rounded_is_near(y);
    law_rounded_is_near(z);
    law_rounded_is_near(rounded(x) + rounded(y));
    law_rounded_is_near(rounded(rounded(x) + rounded(y)) + rounded(z));
}

/// A color whose luminance is just the middle is neither dark nor light.
pub proof fn law_middle_is_neither(r: u8, g: u8, b: u8)
    requires
        luminance(r, g, b) == 128 * 0x100_0000_0000_0000,
    ensures
        !dark(Color::Rgb { r, g, b }) && !light(Color::Rgb { r, g, b }),
{
}

} // verus!

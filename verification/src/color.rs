//! Colours, and the fading of one colour to another.

use vstd::prelude::*;
use rand::rngs::StdRng;
use crate::arith::{div_floor, floor_div, lemma_floor_div_between, lemma_product_bound};
use crate::random::draw_between;
use crate::unit::{is_unit_fraction, UNIT};

verus! {

/// A colour by its red, green and blue parts and its opacity, each from
/// nothing at zero to all at 255.
#[derive(Clone, Copy, Debug, PartialEq, Eq, Structural)]
pub struct Color {
    pub r: u8,
    pub g: u8,
    pub b: u8,
    pub a: u8,
}

/// Opaque white.
pub open spec fn white() -> Color {
    Color { r: 255, g: 255, b: 255, a: 255 }
}

/// The part of a colour that lies the fraction `mix` of the way from `from`
/// to `to`.
pub open spec fn mixed_part(from: u8, to: u8, mix: int) -> int {
    floor_div(from * (UNIT - mix) + to * mix, UNIT as int)
}

/// The colour that lies the fraction `mix` of the way from `c1` to `c2`.
pub open spec fn mixed(c1: Color, c2: Color, mix: int) -> Color {
    Color {
        r: mixed_part(c1.r, c2.r, mix) as u8,
        g: mixed_part(c1.g, c2.g, mix) as u8,
        b: mixed_part(c1.b, c2.b, mix) as u8,
        a: mixed_part(c1.a, c2.a, mix) as u8,
    }
}

/// The fraction at which the step `index` of `nbsteps` stands.
pub open spec fn fade_step(index: int, nbsteps: int) -> int {
    floor_div(index * UNIT, nbsteps)
}

/// The colour with its opacity lowered by `index` of `nbsteps` parts.
pub open spec fn faded(color: Color, index: int, nbsteps: int) -> Color {
    Color { r: color.r, g: color.g, b: color.b, a: (color.a - floor_div(index * color.a, nbsteps)) as u8 }
}

/// A mean of two parts lies between them.
pub proof fn lemma_mixed_part_between(from: u8, to: u8, mix: int)
    requires
        is_unit_fraction(mix),
    ensures
        from <= to ==> from <= mixed_part(from, to, mix) <= to,
        to <= from ==> to <= mixed_part(from, to, mix) <= from,
        0 <= mixed_part(from, to, mix) <= 255,
{
    let lo: int = if from <= to { from as int } else { to as int };
    let hi: int = if from <= to { to as int } else { from as int };
    let n = from * (UNIT - mix) + to * mix;
    assert(lo * UNIT <= n <= hi * UNIT) by (nonlinear_arith)
        requires
            0 <= mix <= UNIT,
            lo <= from <= hi,
            lo <= to <= hi,
            n == from * (UNIT - mix) + to * mix,
    ;
    lemma_floor_div_between(n, UNIT as int, lo, hi);
}

impl Color {
    /// Opaque white.
    pub fn white() -> (c: Color)
        ensures
            c == white(),
    {
        Color { r: 255, g: 255, b: 255, a: 255 }
    }

    /// Opaque black.
    pub fn black() -> (c: Color)
        ensures
            c == (Color { r: 0, g: 0, b: 0, a: 255 }),
    {
        Color { r: 0, g: 0, b: 0, a: 255 }
    }

    /// The grey half-way between black and white.
    pub fn grey() -> (c: Color)
        ensures
            c == (Color { r: 128, g: 128, b: 128, a: 255 }),
    {
        Color { r: 128, g: 128, b: 128, a: 255 }
    }

    /// The green of what has been collected.
    pub fn green() -> (c: Color)
        ensures
            c == (Color { r: 51, g: 255, b: 51, a: 255 }),
    {
        Color { r: 51, g: 255, b: 51, a: 255 }
    }

    /// Pure red.
    pub fn red() -> (c: Color)
        ensures
            c == (Color { r: 255, g: 0, b: 0, a: 255 }),
    {
        Color { r: 255, g: 0, b: 0, a: 255 }
    }

    /// A dark red.
    pub fn marroon() -> (c: Color)
        ensures
            c == (Color { r: 128, g: 0, b: 0, a: 255 }),
    {
        Color { r: 128, g: 0, b: 0, a: 255 }
    }

    /// The blue of the sky by day.
    pub fn skyblue() -> (c: Color)
        ensures
            c == (Color { r: 135, g: 206, b: 235, a: 255 }),
    {
        Color { r: 135, g: 206, b: 235, a: 255 }
    }

    /// The blue of the sky by night.
    pub fn darkblue() -> (c: Color)
        ensures
            c == (Color { r: 11, g: 26, b: 79, a: 255 }),
    {
        Color { r: 11, g: 26, b: 79, a: 255 }
    }
}

/// One part of the colour between two colours.
fn interpolate_part(from: u8, to: u8, mix: i64) -> (part: u8)
    requires
        is_unit_fraction(mix as int),
    ensures
        part == mixed_part(from, to, mix as int),
{
    proof {
        lemma_mixed_part_between(from, to, mix as int);
        lemma_product_bound(from as int, UNIT - mix, 255, UNIT as int);
        lemma_product_bound(to as int, mix as int, 255, UNIT as int);
    }
    div_floor(from as i128 * (UNIT as i128 - mix as i128) + to as i128 * mix as i128, UNIT as i128)
        as u8
}

/// The colour that lies the fraction `mix` of the way from `c1` to `c2`:
/// `c1` for zero and `c2` for one.
pub fn interpolate(c1: &Color, c2: &Color, mix: i64) -> (c: Color)
    requires
        is_unit_fraction(mix as int),
    ensures
        c == mixed(*c1, *c2, mix as int),
{
    Color {
        r: interpolate_part(c1.r, c2.r, mix),
        g: interpolate_part(c1.g, c2.g, mix),
        b: interpolate_part(c1.b, c2.b, mix),
        a: interpolate_part(c1.a, c2.a, mix),
    }
}

/// The colours of a fade from `color1` toward `color2` in `nbsteps` even
/// steps: the first one is `color1`, and `color2` would be the one after
/// the last.  No colours for no steps.
pub fn fade_to(nbsteps: i32, color1: &Color, color2: &Color) -> (colors: Vec<Color>)
    ensures
        colors@.len() == (if nbsteps > 0 {
            nbsteps as int
        } else {
            0
        }),
        forall|i: int|
            0 <= i < colors@.len() ==> #[trigger] colors@[i] == mixed(
                *color1,
                *color2,
                fade_step(i, nbsteps as int),
            ),
{
    let mut colors: Vec<Color> = Vec::new();
    let mut i: i32 = 0;
    while i < nbsteps
        invariant
            0 <= i,
            nbsteps > 0 ==> i <= nbsteps,
            nbsteps <= 0 ==> i == 0,
            colors@.len() == i,
            forall|k: int|
                0 <= k < colors@.len() ==> #[trigger] colors@[k] == mixed(
                    *color1,
                    *color2,
                    fade_step(k, nbsteps as int),
                ),
        decreases nbsteps - i,
    {
        proof {
            lemma_product_bound(i as int, UNIT as int, nbsteps as int, UNIT as int);
            assert(0 <= i * UNIT) by (nonlinear_arith)
                requires
                    0 <= i,
            ;
            assert(UNIT * nbsteps == nbsteps * UNIT) by (nonlinear_arith);
            lemma_floor_div_between(i * UNIT, nbsteps as int, 0, UNIT as int);
        }
        let mix: i64 = div_floor(i as i128 * UNIT as i128, nbsteps as i128) as i64;
        colors.push(interpolate(color1, color2, mix));
        i = i + 1;
    }
    colors
}

/// The colours of a fade of `color` toward full transparency in `nbsteps`
/// even steps: the first one is `color`.  No colours for no steps.
pub fn fade_to_transparent(nbsteps: i32, color: &Color) -> (colors: Vec<Color>)
    ensures
        colors@.len() == (if nbsteps > 0 {
            nbsteps as int
        } else {
            0
        }),
        forall|i: int|
            0 <= i < colors@.len() ==> #[trigger] colors@[i] == faded(*color, i, nbsteps as int),
{
    let mut colors: Vec<Color> = Vec::new();
    let mut i: i32 = 0;
    while i < nbsteps
        invariant
            0 <= i,
            nbsteps > 0 ==> i <= nbsteps,
            nbsteps <= 0 ==> i == 0,
            colors@.len() == i,
            forall|k: int|
                0 <= k < colors@.len() ==> #[trigger] colors@[k] == faded(
                    *color,
                    k,
                    nbsteps as int,
                ),
        decreases nbsteps - i,
    {
        proof {
            lemma_product_bound(i as int, color.a as int, nbsteps as int, color.a as int);
            lemma_product_bound(i as int, color.a as int, 0x8000_0000, 255);
            assert(0 <= i * color.a) by (nonlinear_arith)
                requires
                    0 <= i,
                    0 <= color.a,
            ;
            assert(color.a * nbsteps == nbsteps * color.a) by (nonlinear_arith);
            lemma_floor_div_between(i * color.a, nbsteps as int, 0, color.a as int);
        }
        let lost: i128 = div_floor(i as i128 * color.a as i128, nbsteps as i128);
        colors.push(Color { r: color.r, g: color.g, b: color.b, a: (color.a as i128 - lost) as u8 });
        i = i + 1;
    }
    colors
}

/// A colour for a thing in the foreground: between yellow and white, drawn
/// at random.
pub fn random_foreground_color(rng: &mut StdRng) -> (c: Color)
    ensures
        c.r == 255,
        c.g == 255,
        c.a == 255,
{
    let b: i64 = draw_between(rng, 0, 255);
    Color { r: 255, g: 255, b: b as u8, a: 255 }
}

/// A dark grey, drawn at random: from a tenth to a half of white.
pub fn random_grey_color(rng: &mut StdRng) -> (c: Color)
    ensures
        26 <= c.r <= 127,
        c.g == c.r,
        c.b == c.r,
        c.a == 255,
{
    let r: i64 = draw_between(rng, 26, 127);
    Color { r: r as u8, g: r as u8, b: r as u8, a: 255 }
}

} // verus!

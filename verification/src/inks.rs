//! What painting does to an image, in terms of its pixels and of the colours of the theme.

use vstd::prelude::*;

use crate::badge;
use crate::decision::Verdict;
use crate::laws;
use crate::marks;
use crate::paint;
use crate::raster;
use crate::raster::{Pixel, RgbaImage};
use crate::theme::ThemeContext;
use crate::tone;
use crate::verdicts;

verus! {

/// The weaker colour of a theme is seven parts of its ink and three of its background, to the
/// nearest step, and upwards halfway. So it lies between the two, nearer to the ink wherever
/// they are more than two steps apart.
pub proof fn law_the_weaker_colour_is_mostly_ink(theme: ThemeContext, channel: int)
    requires
        0 <= channel < 3,
    ensures
        ({
            let weaker = paint::secondary_of(theme, channel);
            let (ink, background) = (theme.ink[channel] as int, theme.background[channel] as int);
            &&& -5 < 10 * weaker - (7 * ink + 3 * background) <= 5
            &&& ink <= weaker <= background || background <= weaker <= ink
            &&& background - ink > 2 ==> weaker - ink < background - weaker
            &&& ink - background > 2 ==> ink - weaker < weaker - background
        }),
{
}

/// A mixture is the mean of its two parts by their weights, to the nearest step, and upwards
/// halfway.
pub proof fn law_mixtures_are_rounded_means(primary: int, secondary: int, weight: int, span: int)
    requires
        0 < span,
    ensures
        -span < 2 * (span * paint::mix(primary, secondary, weight, span) - (primary * weight
            + secondary * (span - weight))) <= span,
{
    let sum = primary * weight + secondary * (span - weight) + span / 2;
    vstd::arithmetic::div_mod::lemma_fundamental_div_mod(sum, span);
    vstd::arithmetic::div_mod::lemma_mod_bound(sum, span);
}

/// The weight of the ink is how far a tone is from the secondary one: none at it and beyond it,
/// all at the primary one and beyond that, and one step more for each step between.
pub proof fn law_the_ink_gains_with_the_tone(t: int, low: int, high: int)
    requires
        low < high,
    ensures
        t <= low ==> paint::primary_weight(t, low, high, true) == 0,
        t >= high ==> paint::primary_weight(t, low, high, true) == high - low,
        low <= t <= high ==> paint::primary_weight(t, low, high, true) == t - low,
        t <= low ==> paint::primary_weight(t, low, high, false) == high - low,
        t >= high ==> paint::primary_weight(t, low, high, false) == 0,
        low <= t <= high ==> paint::primary_weight(t, low, high, false) == high - t,
{
}

/// Whether painting has to leave the cell `x`, `y` alone: it has no alpha, or it is part of a
/// badge.
pub open spec fn is_spared(pixels: Seq<Pixel>, width: int, height: int, x: int, y: int) -> bool {
    ||| pixels[raster::cell(x, y, width)][3] == 0
    ||| badge::has_badge(pixels, width, height) && marks::is_enclosed(pixels, width, height, x, y)
}

/// A channel of a pixel after painting.
proof fn lemma_channel(
    image: RgbaImage,
    pixels: Seq<Pixel>,
    theme: ThemeContext,
    verdict: Verdict,
    x: int,
    y: int,
    channel: int,
)
    requires
        verdicts::are_pixels(image, pixels),
        0 <= x < image.width,
        0 <= y < image.height,
        0 <= channel < 4,
    ensures
        ({
            let i = raster::cell(x, y, image.width as int);
            &&& 0 <= 4 * i && 4 * i + 3 < image.bytes@.len()
            &&& paint::painted(image, theme, verdict).len() == image.bytes@.len()
            &&& paint::painted(image, theme, verdict)[4 * i + channel] == if channel == 3
                || is_spared(pixels, image.width as int, image.height as int, x, y) {
                pixels[i][channel]
            } else {
                paint::colour_of(pixels[i], theme, verdict, channel) as u8
            }
        }),
{
    let (width, height) = (image.width as int, image.height as int);
    let i = raster::cell(x, y, width);
    verdicts::lemma_pixels(image, pixels);
    raster::lemma_cell(x, y, width, height);
    marks::law_badges_hold_what_they_enclose(pixels, width, height, x, y);
    assert((4 * i + channel) / 4 == i && (4 * i + channel) % 4 == channel);
}

/// Painting keeps the number of bytes, every alpha, and every byte of a pixel without alpha or of
/// a badge.
pub proof fn law_painting_spares_badges_and_alpha(
    image: RgbaImage,
    pixels: Seq<Pixel>,
    theme: ThemeContext,
    verdict: Verdict,
    x: int,
    y: int,
    channel: int,
)
    requires
        verdicts::are_pixels(image, pixels),
        0 <= x < image.width,
        0 <= y < image.height,
        0 <= channel < 4,
        channel == 3 || is_spared(pixels, image.width as int, image.height as int, x, y),
    ensures
        paint::painted(image, theme, verdict).len() == image.bytes@.len(),
        paint::painted(image, theme, verdict)[4 * raster::cell(x, y, image.width as int) + channel]
            == image.bytes@[4 * raster::cell(x, y, image.width as int) + channel],
{
    lemma_channel(image, pixels, theme, verdict, x, y, channel);
    verdicts::lemma_pixels(image, pixels);
}

/// In one tone, and as a symbolic icon, every other pixel takes exactly the ink of the theme.
pub proof fn law_one_tone_is_painted_in_ink(
    image: RgbaImage,
    pixels: Seq<Pixel>,
    theme: ThemeContext,
    verdict: Verdict,
    x: int,
    y: int,
    channel: int,
)
    requires
        verdicts::are_pixels(image, pixels),
        0 <= x < image.width,
        0 <= y < image.height,
        0 <= channel < 3,
        verdict == Verdict::Monotone || verdict == Verdict::Symbolic,
        !is_spared(pixels, image.width as int, image.height as int, x, y),
    ensures
        paint::painted(image, theme, verdict)[4 * raster::cell(x, y, image.width as int) + channel]
            == theme.ink[channel],
{
    lemma_channel(image, pixels, theme, verdict, x, y, channel);
}

/// How many steps a tone is from the secondary one of two tones, towards the primary one.
pub open spec fn steps_to_ink(t: int, low: int, high: int, high_is_primary: bool) -> int {
    if t <= low {
        if high_is_primary {
            0
        } else {
            high - low
        }
    } else if t >= high {
        if high_is_primary {
            high - low
        } else {
            0
        }
    } else if high_is_primary {
        t - low
    } else {
        high - t
    }
}

/// In two tones, every other pixel takes a mixture of the ink and the weaker colour: as many
/// parts of the ink as its tone is steps from the secondary one, of as many as the two tones are
/// apart, to the nearest step.
pub proof fn law_two_tones_are_painted_between_two_colours(
    image: RgbaImage,
    pixels: Seq<Pixel>,
    theme: ThemeContext,
    low: int,
    high: int,
    high_is_primary: bool,
    x: int,
    y: int,
    channel: int,
    weaker: int,
)
    requires
        verdicts::are_pixels(image, pixels),
        0 <= x < image.width,
        0 <= y < image.height,
        0 <= channel < 3,
        low < high,
        !is_spared(pixels, image.width as int, image.height as int, x, y),
        -5 < 10 * weaker - (7 * theme.ink[channel] + 3 * theme.background[channel]) <= 5,
    ensures
        ({
            let i = raster::cell(x, y, image.width as int);
            let value = paint::painted(
                image,
                theme,
                Verdict::Duotone { low, high, high_is_primary },
            )[4 * i + channel];
            let steps = steps_to_ink(tone::tone_of(pixels[i]), low, high, high_is_primary);
            -(high - low) < 2 * ((high - low) * value - (theme.ink[channel] * steps + weaker * (high
                - low - steps))) <= high - low
        }),
{
    let i = raster::cell(x, y, image.width as int);
    let verdict = Verdict::Duotone { low, high, high_is_primary };
    let steps = steps_to_ink(tone::tone_of(pixels[i]), low, high, high_is_primary);
    let ink = theme.ink[channel] as int;
    lemma_channel(image, pixels, theme, verdict, x, y, channel);
    law_the_weaker_colour_is_mostly_ink(theme, channel);
    assert(weaker == paint::secondary_of(theme, channel));
    assert(steps == paint::primary_weight(tone::tone_of(pixels[i]), low, high, high_is_primary));
    law_mixtures_are_rounded_means(ink, weaker, steps, high - low);
    laws::law_mixtures_lie_between(ink, weaker, steps, high - low);
    assert(0 <= paint::mix(ink, weaker, steps, high - low) <= 255);
}

/// In two tones, a pixel of the primary tone, or beyond it, takes the ink of the theme.
pub proof fn law_the_primary_tone_is_painted_in_ink(
    image: RgbaImage,
    pixels: Seq<Pixel>,
    theme: ThemeContext,
    low: int,
    high: int,
    high_is_primary: bool,
    x: int,
    y: int,
    channel: int,
)
    requires
        verdicts::are_pixels(image, pixels),
        0 <= x < image.width,
        0 <= y < image.height,
        0 <= channel < 3,
        low < high,
        !is_spared(pixels, image.width as int, image.height as int, x, y),
        high_is_primary ==> tone::tone_of(pixels[raster::cell(x, y, image.width as int)]) >= high,
        !high_is_primary ==> tone::tone_of(pixels[raster::cell(x, y, image.width as int)]) <= low,
    ensures
        paint::painted(image, theme, Verdict::Duotone { low, high, high_is_primary })[4
            * raster::cell(x, y, image.width as int) + channel] == theme.ink[channel],
{
    let weaker = paint::secondary_of(theme, channel);
    let ink = theme.ink[channel] as int;
    lemma_channel(
        image,
        pixels,
        theme,
        Verdict::Duotone { low, high, high_is_primary },
        x,
        y,
        channel,
    );
    laws::law_mixtures_lie_between(ink, weaker, high - low, high - low);
}

/// In two tones, a pixel of the secondary tone, or beyond it, takes seven parts of the ink of the
/// theme and three of its background, to the nearest step.
pub proof fn law_the_secondary_tone_is_painted_weaker(
    image: RgbaImage,
    pixels: Seq<Pixel>,
    theme: ThemeContext,
    low: int,
    high: int,
    high_is_primary: bool,
    x: int,
    y: int,
    channel: int,
)
    requires
        verdicts::are_pixels(image, pixels),
        0 <= x < image.width,
        0 <= y < image.height,
        0 <= channel < 3,
        low < high,
        !is_spared(pixels, image.width as int, image.height as int, x, y),
        high_is_primary ==> tone::tone_of(pixels[raster::cell(x, y, image.width as int)]) <= low,
        !high_is_primary ==> tone::tone_of(pixels[raster::cell(x, y, image.width as int)]) >= high,
    ensures
        -5 < 10 * paint::painted(image, theme, Verdict::Duotone { low, high, high_is_primary })[4
            * raster::cell(x, y, image.width as int) + channel] - (7 * theme.ink[channel] + 3
            * theme.background[channel]) <= 5,
{
    let weaker = paint::secondary_of(theme, channel);
    let ink = theme.ink[channel] as int;
    lemma_channel(
        image,
        pixels,
        theme,
        Verdict::Duotone { low, high, high_is_primary },
        x,
        y,
        channel,
    );
    law_the_weaker_colour_is_mostly_ink(theme, channel);
    laws::law_mixtures_lie_between(ink, weaker, 0, high - low);
}

} // verus!

//! What is decided on an icon, in terms of its pixels.

use vstd::prelude::*;

use crate::badge;
use crate::badge::Badge;
use crate::blends;
use crate::decision::{PaintDecision, Verdict};
use crate::greys;
use crate::marks;
use crate::paint;
use crate::palette;
use crate::raster;
use crate::raster::{Pixel, RgbaImage};
use crate::strokes;
use crate::sums;
use crate::tone;

verus! {

/// Whether two colour channels of a pixel are more than sixteen steps apart.
pub open spec fn has_hue(pixel: Pixel) -> bool {
    ||| pixel[0] - pixel[1] > 16 || pixel[1] - pixel[0] > 16
    ||| pixel[0] - pixel[2] > 16 || pixel[2] - pixel[0] > 16
    ||| pixel[1] - pixel[2] > 16 || pixel[2] - pixel[1] > 16
}

/// No sample has colour channels more than sixteen steps apart.
pub open spec fn are_grey(samples: Seq<Option<Pixel>>) -> bool {
    forall|i: int|
        0 <= i < samples.len() ==> (#[trigger] samples[i] matches Some(pixel) ==> !has_hue(pixel))
}

/// `low` and `high` are tones of samples with alpha, and no such sample is darker or brighter.
pub open spec fn are_ends(samples: Seq<Option<Pixel>>, low: int, high: int) -> bool {
    &&& exists|i: int|
        0 <= i < samples.len() && (#[trigger] samples[i] matches Some(pixel) && pixel[3] > 0
            && tone::tone_of(pixel) == low)
    &&& exists|i: int|
        0 <= i < samples.len() && (#[trigger] samples[i] matches Some(pixel) && pixel[3] > 0
            && tone::tone_of(pixel) == high)
    &&& forall|i: int|
        0 <= i < samples.len() ==> (#[trigger] samples[i] matches Some(pixel) ==> pixel[3] > 0
            ==> low <= tone::tone_of(pixel) <= high)
}

/// `levels` are the tones of samples.
pub open spec fn are_levels(samples: Seq<Option<Pixel>>, levels: Seq<Option<u8>>) -> bool {
    &&& levels.len() == samples.len()
    &&& forall|i: int|
        0 <= i < samples.len() ==> (#[trigger] samples[i] is None ==> levels[i] is None)
    &&& forall|i: int|
        0 <= i < samples.len() ==> (#[trigger] samples[i] matches Some(pixel) ==> (
        levels[i] matches Some(level) && level == tone::tone_of(pixel)))
}

/// The alpha of the samples with tones from `from` to `to`.
pub open spec fn alpha_between(samples: Seq<Option<Pixel>>, from: int, to: int) -> nat {
    sums::alpha_where(samples, |i: int| from <= tone::tone_of(samples[i]->0) <= to)
}

/// One coloured sample is enough for an icon to stay as it is.
pub proof fn law_coloured_samples_stay(
    samples: Seq<Option<Pixel>>,
    width: int,
    height: int,
    i: int,
)
    requires
        0 <= i < samples.len(),
        samples[i] matches Some(pixel) && has_hue(pixel),
    ensures
        paint::judge(samples, width, height) == Verdict::Original("original-coloured"@),
{
    assert(tone::is_coloured(samples[i]->0));
}

/// Grey samples without alpha are nothing to paint.
pub proof fn law_samples_without_alpha_are_empty(
    samples: Seq<Option<Pixel>>,
    width: int,
    height: int,
)
    requires
        are_grey(samples),
        forall|i: int|
            0 <= i < samples.len() ==> (#[trigger] samples[i] matches Some(pixel) ==> pixel[3]
                == 0),
    ensures
        paint::judge(samples, width, height) == Verdict::Original("original-empty"@),
{
    lemma_no_colour(samples);
    tone::lemma_lowest_tone(samples);
}

/// Grey samples have no colour.
proof fn lemma_no_colour(samples: Seq<Option<Pixel>>)
    requires
        are_grey(samples),
    ensures
        !paint::has_colour(samples),
{
    if paint::has_colour(samples) {
        let i = choose|i: int|
            0 <= i < samples.len() && (#[trigger] samples[i] matches Some(pixel)
                && tone::is_coloured(pixel));
        assert(has_hue(samples[i]->0));
    }
}

/// The ends of samples are their darkest and their brightest tone.
proof fn lemma_ends(samples: Seq<Option<Pixel>>, low: int, high: int)
    requires
        are_ends(samples, low, high),
    ensures
        tone::lowest_tone(samples) == Some(low),
        tone::highest_tone(samples) == Some(high),
{
    greys::law_the_darkest_tone(samples, low);
    greys::law_the_brightest_tone(samples, high);
}

/// Grey samples with tones no more than twenty-four steps apart are of one tone.
pub proof fn law_narrow_greys_are_one_tone(
    samples: Seq<Option<Pixel>>,
    width: int,
    height: int,
    low: int,
    high: int,
)
    requires
        are_grey(samples),
        are_ends(samples, low, high),
        high - low <= 24,
    ensures
        paint::judge(samples, width, height) == Verdict::Monotone,
{
    lemma_no_colour(samples);
    lemma_ends(samples, low, high);
}

/// What is decided on grey samples with tones further apart. Where their contours are busy, they
/// stay as they are. Where the tones within twelve steps above the darkest or below the
/// brightest one hold ninety-eight percent of the alpha, they are of just these two tones, at
/// any brightness, and the brighter one is the primary one exactly where the tones close to it
/// hold no less alpha. All others are of their palette, or stay where they have none.
pub proof fn law_wide_greys_are_two_tones_or_more(
    samples: Seq<Option<Pixel>>,
    levels: Seq<Option<u8>>,
    width: int,
    height: int,
    low: int,
    high: int,
    high_is_primary: bool,
)
    requires
        are_grey(samples),
        are_ends(samples, low, high),
        are_levels(samples, levels),
        high - low > 24,
        high_is_primary <==> alpha_between(samples, high - 12, high) >= alpha_between(
            samples,
            low,
            low + 12,
        ),
    ensures
        strokes::are_busy(levels, width, height, low, high, high_is_primary) ==> paint::judge(
            samples,
            width,
            height,
        ) == Verdict::Original("original-complex-contours"@),
        !strokes::are_busy(levels, width, height, low, high, high_is_primary) && 100 * (
        alpha_between(samples, low, low + 12) + alpha_between(samples, high - 12, high)) >= 98
            * sums::alpha_of(samples) ==> paint::judge(samples, width, height) == (
        Verdict::Duotone { low, high, high_is_primary }),
        !strokes::are_busy(levels, width, height, low, high, high_is_primary) && 100 * (
        alpha_between(samples, low, low + 12) + alpha_between(samples, high - 12, high)) < 98
            * sums::alpha_of(samples) ==> (match palette::solid_palette(samples, width, height) {
            Some(verdict) => paint::judge(samples, width, height) == verdict,
            None => paint::judge(samples, width, height) == Verdict::Original(
                "original-multiple-tones"@,
            ),
        }),
{
    lemma_no_colour(samples);
    lemma_ends(samples, low, high);
    greys::law_masses_are_alpha(samples, low, low + 12);
    greys::law_masses_are_alpha(samples, high - 12, high);
    greys::law_all_tones_hold_all_alpha(samples);
    assert forall|i: int| 0 <= i < levels.len() implies #[trigger] levels[i] == paint::levels_of(
        samples,
    )[i] by {
        assert(samples[i] is None || samples[i] is Some);
    }
    assert(levels =~= paint::levels_of(samples));
    strokes::law_complex_contours_are_busy_lines(
        levels,
        width,
        height,
        low,
        high,
        high_is_primary,
    );
}

/// Grey samples with tones more than twenty-four steps apart are of one tone only where their
/// palette is: ninety-eight percent of their alpha is then on samples that are like a core, or
/// close to a sample that is.
pub proof fn law_wide_greys_are_one_tone_only_by_palette(
    samples: Seq<Option<Pixel>>,
    width: int,
    height: int,
    low: int,
    high: int,
)
    requires
        0 <= width,
        0 <= height,
        samples.len() == width * height,
        are_ends(samples, low, high),
        high - low > 24,
        paint::judge(samples, width, height) == Verdict::Monotone,
    ensures
        palette::solid_palette(samples, width, height) == Some(Verdict::Monotone),
        100 * sums::alpha_where(
            samples,
            |i: int| blends::is_close_to_a_core(samples, width, height, i),
        ) >= 98 * sums::alpha_of(samples),
{
    lemma_ends(samples, low, high);
    blends::law_palettes_reach_their_samples(samples, width, height);
}

/// The two tones of an icon of two tones are more than twenty-four steps apart.
pub proof fn law_two_tones_are_far_apart(
    samples: Seq<Option<Pixel>>,
    width: int,
    height: int,
    low: int,
    high: int,
    high_is_primary: bool,
)
    requires
        paint::judge(samples, width, height) == (Verdict::Duotone { low, high, high_is_primary }),
    ensures
        high - low > 24,
        are_grey(samples),
{
    assert forall|i: int| 0 <= i < samples.len() implies (#[trigger] samples[i] matches Some(pixel)
        ==> !has_hue(pixel)) by {
        if samples[i] is Some && has_hue(samples[i]->0) {
            law_coloured_samples_stay(samples, width, height, i);
        }
    }
}

/// Where a theme does not colour icons, an image not handed in as a symbolic one stays, whatever
/// is in it.
pub proof fn law_switched_off_themes_keep_images(image: RgbaImage)
    ensures
        paint::decide(image, false, false) == Verdict::Original("original-disabled"@),
{
}

/// An image with a side of none, or whose bytes are not four for each pixel, stays.
pub proof fn law_broken_images_stay(image: RgbaImage, colour_icons: bool, explicit: bool)
    requires
        colour_icons || explicit,
        image.width == 0 || image.height == 0 || image.bytes@.len() != 4 * (image.width
            * image.height),
    ensures
        paint::decide(image, colour_icons, explicit) == Verdict::Original("original-invalid"@),
{
}

/// An image with four bytes for each of its pixels that is handed in as a symbolic one is one,
/// whatever the theme and whatever is in it.
pub proof fn law_symbolic_images_are_symbolic(image: RgbaImage, colour_icons: bool)
    requires
        image.width > 0,
        image.height > 0,
        image.bytes@.len() == 4 * (image.width * image.height),
    ensures
        paint::decide(image, colour_icons, true) == Verdict::Symbolic,
{
}

/// `pixels` are the bytes of an image, four by four.
pub open spec fn are_pixels(image: RgbaImage, pixels: Seq<Pixel>) -> bool {
    &&& image.width > 0
    &&& image.height > 0
    &&& pixels.len() == image.width * image.height
    &&& image.bytes@.len() == 4 * (image.width * image.height)
    &&& forall|i: int|
        0 <= i < pixels.len() ==> (#[trigger] pixels[i])[0] == image.bytes@[4 * i] && pixels[i][1]
            == image.bytes@[4 * i + 1] && pixels[i][2] == image.bytes@[4 * i + 2] && pixels[i][3]
            == image.bytes@[4 * i + 3]
}

/// The pixels of an image are those its bytes hold.
pub(crate) proof fn lemma_pixels(image: RgbaImage, pixels: Seq<Pixel>)
    requires
        are_pixels(image, pixels),
    ensures
        image.is_valid(),
        pixels == raster::pixels_of(image.bytes@),
{
    let all = raster::pixels_of(image.bytes@);
    assert forall|i: int| 0 <= i < pixels.len() implies pixels[i] == #[trigger] all[i] by {
        assert(pixels[i] =~= all[i]);
    }
    assert(pixels =~= all);
}

/// `samples` are the seen pixels of an icon, but for those of its badge and of the rim of one
/// cell around it.
pub open spec fn are_what_shows(
    pixels: Seq<Pixel>,
    width: int,
    height: int,
    samples: Seq<Option<Pixel>>,
) -> bool {
    &&& samples.len() == pixels.len()
    &&& forall|x: int, y: int|
        0 <= x < width && 0 <= y < height ==> samples[#[trigger] raster::cell(x, y, width)] == if (
        marks::is_seen(pixels[raster::cell(x, y, width)]) && !(badge::has_badge(
            pixels,
            width,
            height,
        ) && marks::touches_enclosed(pixels, width, height, x, y))) {
            Some(pixels[raster::cell(x, y, width)])
        } else {
            None
        }
}

/// An image is judged by what shows of it besides a badge.
pub proof fn law_images_are_judged_by_what_shows(
    image: RgbaImage,
    pixels: Seq<Pixel>,
    samples: Seq<Option<Pixel>>,
)
    requires
        are_pixels(image, pixels),
        are_what_shows(pixels, image.width as int, image.height as int, samples),
    ensures
        paint::decide(image, true, false) == paint::judge(
            samples,
            image.width as int,
            image.height as int,
        ),
{
    let (width, height) = (image.width as int, image.height as int);
    lemma_pixels(image, pixels);
    let all = paint::samples_of(pixels, width, height);
    assert forall|i: int| 0 <= i < samples.len() implies samples[i] == #[trigger] all[i] by {
        raster::lemma_position(i, width, height);
        let (x, y) = (i % width, i / width);
        assert(raster::cell(x, y, width) == i);
        marks::law_badges_have_a_rim_of_one_cell(pixels, width, height, x, y);
    }
    assert(samples =~= all);
}

/// A grey image with tones more than twenty-four steps apart whose contours are not busy, and
/// with ninety-eight percent of its alpha on tones within twelve steps above the darkest or below
/// the brightest, is of just these two tones, at any brightness.
pub proof fn law_images_of_two_tones(
    image: RgbaImage,
    pixels: Seq<Pixel>,
    samples: Seq<Option<Pixel>>,
    levels: Seq<Option<u8>>,
    low: int,
    high: int,
    high_is_primary: bool,
)
    requires
        are_pixels(image, pixels),
        forall|i: int| 0 <= i < pixels.len() ==> !marks::is_vivid(#[trigger] pixels[i]),
        samples.len() == pixels.len(),
        forall|i: int|
            0 <= i < pixels.len() ==> #[trigger] samples[i] == if pixels[i][3] >= 16 {
                Some(pixels[i])
            } else {
                None
            },
        are_ends(samples, low, high),
        are_levels(samples, levels),
        high - low > 24,
        high_is_primary <==> alpha_between(samples, high - 12, high) >= alpha_between(
            samples,
            low,
            low + 12,
        ),
        !strokes::are_busy(
            levels,
            image.width as int,
            image.height as int,
            low,
            high,
            high_is_primary,
        ),
        100 * (alpha_between(samples, low, low + 12) + alpha_between(samples, high - 12, high))
            >= 98 * sums::alpha_of(samples),
    ensures
        paint::decide(image, true, false) == (Verdict::Duotone { low, high, high_is_primary }),
{
    let (width, height) = (image.width as int, image.height as int);
    marks::law_badges_are_vivid(pixels, width, height);
    assert forall|x: int, y: int| 0 <= x < width && 0 <= y < height implies 0
        <= #[trigger] raster::cell(x, y, width) < pixels.len() by {
        raster::lemma_cell(x, y, width, height);
    }
    law_images_are_judged_by_what_shows(image, pixels, samples);
    assert forall|i: int| 0 <= i < samples.len() implies (#[trigger] samples[i] matches Some(pixel)
        ==> !has_hue(pixel)) by {
        assert(!marks::is_vivid(pixels[i]));
    }
    law_wide_greys_are_two_tones_or_more(
        samples,
        levels,
        width,
        height,
        low,
        high,
        high_is_primary,
    );
}

/// The samples outside a given badge are the seen pixels but for those that the badge affects.
pub proof fn law_samples_outside_a_badge(
    pixels: Seq<Pixel>,
    width: int,
    badge: Option<&Badge>,
    i: int,
)
    requires
        0 <= i < pixels.len(),
    ensures
        paint::samples_outside(pixels, width, badge).len() == pixels.len(),
        paint::samples_outside(pixels, width, badge)[i] == if marks::is_seen(pixels[i]) && !(
        badge is Some && badge->0.affects(i % width, i / width)) {
            Some(pixels[i])
        } else {
            None
        },
{
}

/// The name of a decision is its reason where the icon stays as it is, and tells the others
/// apart, whatever their tones.
pub proof fn law_decisions_have_names(
    reason: Seq<char>,
    low: int,
    high: int,
    high_is_primary: bool,
)
    ensures
        Verdict::Original(reason).name() == reason,
        Verdict::Symbolic.name() == "symbolic-explicit"@,
        Verdict::Monotone.name() == "monotone"@,
        (Verdict::Duotone { low, high, high_is_primary }).name() == "duotone"@,
{
}

/// The mathematical value of a decision is of the same kind, with the same reason or tones.
pub proof fn law_decisions_say_their_tones(
    reason: &'static str,
    low: u8,
    high: u8,
    high_is_primary: bool,
)
    ensures
        PaintDecision::Original(reason)@ == Verdict::Original(reason@),
        PaintDecision::Symbolic@ == Verdict::Symbolic,
        PaintDecision::Monotone@ == Verdict::Monotone,
        (PaintDecision::Duotone { low, high, high_is_primary })@ == (Verdict::Duotone {
            low: low as int,
            high: high as int,
            high_is_primary,
        }),
{
}

} // verus!

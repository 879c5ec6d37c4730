//! What holds of every icon, whatever its pixels and the theme.

use vstd::prelude::*;

use crate::badge;
use crate::contour;
use crate::decision::Verdict;
use crate::paint;
use crate::palette;
use crate::raster;
use crate::raster::{Pixel, RgbaImage};
use crate::theme::ThemeContext;
use crate::tone;

verus! {

/// The pixels of an image.
pub open spec fn pixels_in(image: RgbaImage) -> Seq<Pixel> {
    raster::pixels_of(image.bytes@)
}

/// The pixels of an image after painting.
pub open spec fn painted_pixels(image: RgbaImage, theme: ThemeContext, verdict: Verdict) -> Seq<
    Pixel,
> {
    raster::pixels_of(paint::painted(image, theme, verdict))
}

/// Whether painting leaves a pixel of an image alone.
pub open spec fn keeps(image: RgbaImage, i: int) -> bool {
    paint::is_kept(pixels_in(image), image.width as int, image.height as int, i)
}

/// Painting keeps the alpha of every pixel.
pub proof fn law_alpha_is_kept(image: RgbaImage, theme: ThemeContext, verdict: Verdict)
    ensures
        painted_pixels(image, theme, verdict).len() == pixels_in(image).len(),
        forall|i: int|
            0 <= i < pixels_in(image).len() ==> (#[trigger] painted_pixels(
                image,
                theme,
                verdict,
            )[i])[3] == pixels_in(image)[i][3],
{
}

/// Painting keeps every byte of a pixel that cannot be seen and of a pixel of a badge.
pub proof fn law_kept_pixels_stay(image: RgbaImage, theme: ThemeContext, verdict: Verdict)
    ensures
        forall|i: int|
            0 <= i < pixels_in(image).len() && keeps(image, i) ==> #[trigger] painted_pixels(
                image,
                theme,
                verdict,
            )[i] == pixels_in(image)[i],
{
    let (before, after) = (pixels_in(image), painted_pixels(image, theme, verdict));
    assert forall|i: int| 0 <= i < before.len() && keeps(image, i) implies #[trigger] after[i]
        == before[i] by {
        assert((4 * i) / 4 == i && (4 * i + 1) / 4 == i && (4 * i + 2) / 4 == i && (4 * i + 3) / 4
            == i);
    }
}

/// An icon of one tone, and a symbolic one, takes exactly the ink of the theme wherever it is
/// painted.
pub proof fn law_one_tone_takes_the_ink(image: RgbaImage, theme: ThemeContext, verdict: Verdict)
    requires
        verdict is Monotone || verdict is Symbolic,
    ensures
        forall|i: int, channel: int|
            0 <= i < pixels_in(image).len() && !keeps(image, i) && 0 <= channel < 3 ==> (
            #[trigger] painted_pixels(image, theme, verdict)[i])[channel]
                == #[trigger] theme.ink[channel],
{
    let after = painted_pixels(image, theme, verdict);
    assert forall|i: int, channel: int|
        0 <= i < pixels_in(image).len() && !keeps(image, i) && 0 <= channel < 3 implies (
    #[trigger] after[i])[channel] == #[trigger] theme.ink[channel] by {
        assert((4 * i + channel) / 4 == i && (4 * i + channel) % 4 == channel);
        assert(after[i][channel] == paint::painted(image, theme, verdict)[4 * i + channel]);
    }
}

/// At no weight a mixture is its second part, at full weight its first, and in between it
/// lies between the two.
pub proof fn law_mixtures_lie_between(primary: int, secondary: int, weight: int, span: int)
    requires
        0 <= weight <= span,
        0 < span,
    ensures
        weight == 0 ==> paint::mix(primary, secondary, weight, span) == secondary,
        weight == span ==> paint::mix(primary, secondary, weight, span) == primary,
        vstd::math::min(primary, secondary) <= paint::mix(primary, secondary, weight, span)
            <= vstd::math::max(primary, secondary),
{
    let (low, high) = (vstd::math::min(primary, secondary), vstd::math::max(primary, secondary));
    let sum = primary * weight + secondary * (span - weight) + span / 2;
    assert(low * span <= primary * weight + secondary * (span - weight) <= high * span)
        by (nonlinear_arith)
        requires
            low <= primary <= high,
            low <= secondary <= high,
            0 <= weight <= span,
    ;
    assert(low <= sum / span <= high) by (nonlinear_arith)
        requires
            low * span <= sum < high * span + span,
            0 < span,
    ;
    if weight == 0 {
        assert(primary * 0 + secondary * (span - 0) == secondary * span) by (nonlinear_arith);
        assert(sum / span == secondary) by (nonlinear_arith)
            requires
                sum == secondary * span + span / 2,
                0 < span,
        ;
    }
    if weight == span {
        assert(primary * span + secondary * (span - span) == primary * span) by (nonlinear_arith);
        assert(sum / span == primary) by (nonlinear_arith)
            requires
                sum == primary * span + span / 2,
                0 < span,
        ;
    }
}

/// More weight never takes a mixture away from its first part.
pub proof fn law_mixtures_follow_the_weight(
    primary: int,
    secondary: int,
    less: int,
    more: int,
    span: int,
)
    requires
        0 <= less <= more <= span,
        0 < span,
    ensures
        primary <= secondary ==> paint::mix(primary, secondary, more, span) <= paint::mix(
            primary,
            secondary,
            less,
            span,
        ),
        secondary <= primary ==> paint::mix(primary, secondary, less, span) <= paint::mix(
            primary,
            secondary,
            more,
            span,
        ),
{
    let at_less = primary * less + secondary * (span - less) + span / 2;
    let at_more = primary * more + secondary * (span - more) + span / 2;
    assert(at_more - at_less == (primary - secondary) * (more - less)) by (nonlinear_arith)
        requires
            at_less == primary * less + secondary * (span - less) + span / 2,
            at_more == primary * more + secondary * (span - more) + span / 2,
    ;
    if primary <= secondary {
        assert((primary - secondary) * (more - less) <= 0) by (nonlinear_arith)
            requires
                primary <= secondary,
                less <= more,
        ;
        vstd::arithmetic::div_mod::lemma_div_is_ordered(at_more, at_less, span);
    }
    if secondary <= primary {
        assert((primary - secondary) * (more - less) >= 0) by (nonlinear_arith)
            requires
                secondary <= primary,
                less <= more,
        ;
        vstd::arithmetic::div_mod::lemma_div_is_ordered(at_less, at_more, span);
    }
}

/// An icon of two tones takes two fixed colours of the theme: pixels of the primary tone take
/// its ink, pixels of the other one the weaker colour, and pixels between the tones a colour
/// between the two.
pub proof fn law_two_tones_take_two_colours(
    pixel: Pixel,
    theme: ThemeContext,
    low: int,
    high: int,
    high_is_primary: bool,
    channel: int,
)
    requires
        low < high,
        0 <= channel < 3,
    ensures
        ({
            let verdict = Verdict::Duotone { low, high, high_is_primary };
            let value = paint::colour_of(pixel, theme, verdict, channel);
            let ink = theme.ink[channel] as int;
            let weaker = paint::secondary_of(theme, channel);
            &&& tone::tone_of(pixel) >= high ==> value == if high_is_primary {
                ink
            } else {
                weaker
            }
            &&& tone::tone_of(pixel) <= low ==> value == if high_is_primary {
                weaker
            } else {
                ink
            }
            &&& vstd::math::min(ink, weaker) <= value <= vstd::math::max(ink, weaker)
            &&& 0 <= value <= 255
        }),
{
    law_mixtures_lie_between(
        theme.ink[channel] as int,
        paint::secondary_of(theme, channel),
        paint::primary_weight(tone::tone_of(pixel), low, high, high_is_primary),
        high - low,
    );
}

/// Wherever an icon of two tones is painted, its pixels take the colour of their own tone.
pub proof fn law_two_tones_are_painted(
    image: RgbaImage,
    theme: ThemeContext,
    low: int,
    high: int,
    high_is_primary: bool,
)
    requires
        low < high,
    ensures
        forall|i: int, channel: int|
            0 <= i < pixels_in(image).len() && !keeps(image, i) && 0 <= channel < 3 ==> (
            #[trigger] painted_pixels(
                image,
                theme,
                Verdict::Duotone { low, high, high_is_primary },
            )[i])[channel] == #[trigger] paint::colour_of(
                pixels_in(image)[i],
                theme,
                Verdict::Duotone { low, high, high_is_primary },
                channel,
            ),
{
    let verdict = Verdict::Duotone { low, high, high_is_primary };
    let (before, after) = (pixels_in(image), painted_pixels(image, theme, verdict));
    assert forall|i: int, channel: int|
        0 <= i < before.len() && !keeps(image, i) && 0 <= channel < 3 implies (
    #[trigger] after[i])[channel] == #[trigger] paint::colour_of(
        before[i],
        theme,
        verdict,
        channel,
    ) by {
        law_two_tones_take_two_colours(before[i], theme, low, high, high_is_primary, channel);
        assert((4 * i + channel) / 4 == i && (4 * i + channel) % 4 == channel);
        assert(after[i][channel] == paint::painted(image, theme, verdict)[4 * i + channel]);
    }
}

/// An image handed in as a symbolic one is painted as such, whatever the theme says of
/// colouring icons and whatever colours the image has; only an invalid one is not.
pub proof fn law_symbolic_icons_are_painted(image: RgbaImage, colour_icons: bool)
    ensures
        paint::decide(image, colour_icons, true) is Symbolic <==> image.is_valid(),
        !image.is_valid() ==> paint::decide(image, colour_icons, true) == Verdict::Original(
            "original-invalid"@,
        ),
{
}

/// Where the theme does not colour icons, an image not handed in as a symbolic one is never
/// painted.
pub proof fn law_toggle_keeps_icons(image: RgbaImage)
    ensures
        paint::decide(image, false, false) == Verdict::Original("original-disabled"@),
{
}

/// The tones of samples are tones of a byte, the darkest one no brighter than the brightest.
proof fn lemma_tone_range(samples: Seq<Option<Pixel>>)
    ensures
        tone::lowest_tone(samples) is Some <==> tone::highest_tone(samples) is Some,
        tone::lowest_tone(samples) is Some ==> 0 <= tone::lowest_tone(samples)->0
            <= tone::highest_tone(samples)->0 <= 255,
{
    tone::lemma_lowest_tone(samples);
    tone::lemma_highest_tone(samples);
}

/// The two tones of an icon of two tones are tones of a byte, and further apart than those of
/// an icon of one tone may be.
pub proof fn law_two_tones_are_apart(image: RgbaImage, colour_icons: bool, explicit: bool)
    ensures
        paint::decide(image, colour_icons, explicit) matches Verdict::Duotone { low, high, .. }
            ==> 0 <= low && high <= 255 && high - low > palette::MAX_MONOTONE_SPAN,
{
    let (w, h) = (image.width as int, image.height as int);
    let samples = paint::samples_of(pixels_in(image), w, h);
    lemma_tone_range(samples);
    lemma_tone_range(palette::solid_only(samples, w, h));
}

/// An icon stays as it is for one of six reasons.
pub proof fn law_reasons_are_known(image: RgbaImage, colour_icons: bool, explicit: bool)
    ensures
        paint::decide(image, colour_icons, explicit) matches Verdict::Original(reason) ==> {
            ||| reason == "original-disabled"@
            ||| reason == "original-invalid"@
            ||| reason == "original-coloured"@
            ||| reason == "original-empty"@
            ||| reason == "original-complex-contours"@
            ||| reason == "original-multiple-tones"@
        },
{
}

/// Whether some pixel of an image is visible and coloured.
pub open spec fn shows_colour(image: RgbaImage) -> bool {
    exists|i: int|
        0 <= i < pixels_in(image).len() && tone::is_visible(#[trigger] pixels_in(image)[i])
            && tone::is_coloured(pixels_in(image)[i])
}

/// Whether an image has a badge.
pub open spec fn shows_badge(image: RgbaImage) -> bool {
    badge::has_badge(pixels_in(image), image.width as int, image.height as int)
}

/// A badge holds every coloured pixel of its icon.
pub proof fn law_badges_hold_all_colour(image: RgbaImage, i: int)
    requires
        image.is_valid(),
        shows_badge(image),
        0 <= i < pixels_in(image).len(),
        tone::is_visible(pixels_in(image)[i]),
        tone::is_coloured(pixels_in(image)[i]),
    ensures
        badge::in_badge(pixels_in(image), image.width as int, image.height as int, i),
        badge::beside_badge(pixels_in(image), image.width as int, image.height as int, i),
{
    let (w, h) = (image.width as int, image.height as int);
    let mask = badge::coloured_mask(pixels_in(image));
    raster::lemma_position(i, w, h);
    let (x, y) = (i % w, i / w);
    assert(badge::row_of(mask, w, y)[x]);
    assert(badge::column_of(mask, w, h, x)[y]);
    assert(badge::is_covered(mask, w, h, x, y));
}

/// No badge is found where nothing is coloured.
proof fn lemma_no_colour_no_badge(image: RgbaImage)
    requires
        !shows_colour(image),
    ensures
        !shows_badge(image),
{
    let mask = badge::coloured_mask(pixels_in(image));
    assert forall|i: int| 0 <= i < mask.len() implies !#[trigger] mask[i] by {
        assert(!(tone::is_visible(pixels_in(image)[i]) && tone::is_coloured(pixels_in(image)[i])));
    }
}

/// The reasons that pixels can give are told apart.
proof fn lemma_reasons_differ()
    ensures
        "original-coloured"@ != "original-empty"@,
        "original-coloured"@ != "original-complex-contours"@,
        "original-coloured"@ != "original-multiple-tones"@,
        "original-empty"@ != "original-complex-contours"@,
        "original-empty"@ != "original-multiple-tones"@,
{
    reveal_strlit("original-coloured");
    reveal_strlit("original-empty");
    reveal_strlit("original-complex-contours");
    reveal_strlit("original-multiple-tones");
    assert("original-coloured"@.len() == 17);
    assert("original-empty"@.len() == 14);
    assert("original-complex-contours"@.len() == 25);
    assert("original-multiple-tones"@.len() == 23);
}

/// A coloured icon stays as it is, unless all its colour is a badge; and colour is the reason
/// on no other icon.
pub proof fn law_colour_is_kept(image: RgbaImage)
    requires
        image.is_valid(),
    ensures
        paint::decide(image, true, false) == Verdict::Original("original-coloured"@)
            <==> shows_colour(image) && !shows_badge(image),
{
    let (w, h) = (image.width as int, image.height as int);
    let pixels = pixels_in(image);
    let samples = paint::samples_of(pixels, w, h);
    lemma_reasons_differ();
    if shows_colour(image) && !shows_badge(image) {
        let i = choose|i: int|
            0 <= i < pixels_in(image).len() && tone::is_visible(#[trigger] pixels_in(image)[i])
                && tone::is_coloured(pixels_in(image)[i]);
        assert(samples[i] == Some(pixels[i]));
    }
    if paint::decide(image, true, false) == Verdict::Original("original-coloured"@) {
        assert(paint::has_colour(samples));
        let i = choose|i: int|
            0 <= i < samples.len() && (#[trigger] samples[i] matches Some(pixel)
                && tone::is_coloured(pixel));
        assert(tone::is_visible(pixels[i]) && tone::is_coloured(pixels[i]));
        if shows_badge(image) {
            law_badges_hold_all_colour(image, i);
        }
    }
}

/// An icon stays as it is for being empty exactly where nothing of it is visible but for a
/// badge and its rim.
pub proof fn law_only_blank_icons_are_empty(image: RgbaImage)
    requires
        image.is_valid(),
    ensures
        paint::decide(image, true, false) == Verdict::Original("original-empty"@) <==> forall|i: int|
            0 <= i < pixels_in(image).len() && tone::is_visible(#[trigger] pixels_in(image)[i])
                ==> badge::beside_badge(
                pixels_in(image),
                image.width as int,
                image.height as int,
                i,
            ),
{
    let (w, h) = (image.width as int, image.height as int);
    let pixels = pixels_in(image);
    let samples = paint::samples_of(pixels, w, h);
    lemma_reasons_differ();
    lemma_tone_range(samples);
    tone::lemma_lowest_tone(samples);
    assert forall|i: int| 0 <= i < pixels.len() implies (#[trigger] samples[i] is None <==> !(
    tone::is_visible(pixels[i]) && !badge::beside_badge(pixels, w, h, i))) by {}
    if tone::lowest_tone(samples) is None {
        assert forall|i: int|
            0 <= i < pixels.len() && tone::is_visible(
                #[trigger] pixels_in(image)[i],
            ) implies badge::beside_badge(pixels, w, h, i) by {
            assert(samples[i] is None);
        }
    } else {
        let i = choose|i: int| 0 <= i < samples.len() && !(#[trigger] samples[i] is None);
        assert(tone::is_visible(pixels_in(image)[i]) && !badge::beside_badge(pixels, w, h, i));
    }
}

/// A visible grey icon whose tones all lie close enough to each other has one tone.
pub proof fn law_grey_icons_of_one_tone(image: RgbaImage)
    requires
        image.is_valid(),
        exists|i: int|
            0 <= i < pixels_in(image).len() && tone::is_visible(#[trigger] pixels_in(image)[i]),
        !shows_colour(image),
        forall|i: int, j: int|
            0 <= i < pixels_in(image).len() && 0 <= j < pixels_in(image).len() && tone::is_visible(
                #[trigger] pixels_in(image)[i],
            ) && tone::is_visible(#[trigger] pixels_in(image)[j]) ==> tone::tone_of(
                pixels_in(image)[i],
            ) - tone::tone_of(pixels_in(image)[j]) <= palette::MAX_MONOTONE_SPAN,
    ensures
        paint::decide(image, true, false) == Verdict::Monotone,
{
    let (w, h) = (image.width as int, image.height as int);
    let pixels = pixels_in(image);
    let samples = paint::samples_of(pixels, w, h);
    lemma_no_colour_no_badge(image);
    assert forall|i: int| 0 <= i < pixels.len() implies #[trigger] samples[i] == if tone::is_visible(
        pixels[i],
    ) {
        Some(pixels[i])
    } else {
        None
    } by {}
    let seen = choose|i: int|
        0 <= i < pixels_in(image).len() && tone::is_visible(#[trigger] pixels_in(image)[i]);
    assert(samples[seen] is Some);
    tone::lemma_lowest_tone(samples);
    tone::lemma_highest_tone(samples);
    assert(!paint::has_colour(samples)) by {
        if paint::has_colour(samples) {
            let i = choose|i: int|
                0 <= i < samples.len() && (#[trigger] samples[i] matches Some(pixel)
                    && tone::is_coloured(pixel));
            assert(tone::is_visible(pixels_in(image)[i]));
        }
    }
    let low = tone::lowest_tone(samples)->0;
    let high = tone::highest_tone(samples)->0;
    let darkest = choose|i: int|
        0 <= i < samples.len() && (#[trigger] samples[i] matches Some(pixel) && tone::tone_of(pixel)
            == low);
    let brightest = choose|i: int|
        0 <= i < samples.len() && (#[trigger] samples[i] matches Some(pixel) && tone::tone_of(pixel)
            == high);
    assert(tone::is_visible(pixels_in(image)[darkest]));
    assert(tone::is_visible(pixels_in(image)[brightest]));
}

/// Levels that are drawn in no ink, such as those of an antialiased edge, add nothing to the
/// inks along a line.
pub proof fn law_blended_levels_add_no_ink(
    before: Seq<Option<u8>>,
    blended: Seq<Option<u8>>,
    after: Seq<Option<u8>>,
    low: int,
    high: int,
)
    requires
        forall|i: int|
            0 <= i < blended.len() ==> contour::ink_of(#[trigger] blended[i], low, high) is None,
    ensures
        contour::inks_along(before + blended + after, low, high) == contour::inks_along(
            before + after,
            low,
            high,
        ),
    decreases blended.len() + after.len(),
{
    if after.len() > 0 {
        let rest = after.drop_last();
        law_blended_levels_add_no_ink(before, blended, rest, low, high);
        assert((before + blended + after).drop_last() =~= before + blended + rest);
        assert((before + after).drop_last() =~= before + rest);
        assert((before + blended + after).last() == after.last());
        assert((before + after).last() == after.last());
    } else if blended.len() > 0 {
        let rest = blended.drop_last();
        assert forall|i: int| 0 <= i < rest.len() implies contour::ink_of(
            #[trigger] rest[i],
            low,
            high,
        ) is None by {
            assert(rest[i] == blended[i]);
        }
        law_blended_levels_add_no_ink(before, rest, after, low, high);
        assert((before + blended + after).drop_last() =~= before + rest + after);
        assert((before + blended + after).last() == blended[blended.len() - 1]);
    } else {
        assert(before + blended + after =~= before + after);
    }
}

/// A gap parts a line in two: it is complex exactly where one of its parts is.
pub proof fn law_gaps_part_lines(
    before: Seq<Option<u8>>,
    after: Seq<Option<u8>>,
    low: int,
    high: int,
    high_is_primary: bool,
)
    ensures
        contour::is_complex_line(before.push(None) + after, low, high, high_is_primary)
            <==> contour::is_complex_line(before, low, high, high_is_primary)
            || contour::is_complex_line(after, low, high, high_is_primary),
{
    let line = before.push(None) + after;
    let shift = before.len() + 1;
    assert forall|i: int| 0 <= i < line.len() implies #[trigger] line[i] == if i < before.len() {
        before[i]
    } else if i == before.len() {
        None
    } else {
        after[i - shift]
    } by {}
    if contour::is_complex_line(before, low, high, high_is_primary) {
        let (start, end) = choose|start: int, end: int| #[trigger]
            contour::is_run(before, start, end) && contour::is_complex_run(
                contour::inks_along(before.subrange(start, end), low, high),
                low,
                high,
                high_is_primary,
            );
        assert(line.subrange(start, end) =~= before.subrange(start, end));
        assert(contour::is_run(line, start, end));
    }
    if contour::is_complex_line(after, low, high, high_is_primary) {
        let (start, end) = choose|start: int, end: int| #[trigger]
            contour::is_run(after, start, end) && contour::is_complex_run(
                contour::inks_along(after.subrange(start, end), low, high),
                low,
                high,
                high_is_primary,
            );
        assert(line.subrange(start + shift, end + shift) =~= after.subrange(start, end));
        assert forall|i: int| start + shift <= i < end + shift implies #[trigger] line[i] is Some by {
            assert(after[i - shift] is Some);
        }
        assert(contour::is_run(line, start + shift, end + shift));
    }
    if contour::is_complex_line(line, low, high, high_is_primary) {
        let (start, end) = choose|start: int, end: int| #[trigger]
            contour::is_run(line, start, end) && contour::is_complex_run(
                contour::inks_along(line.subrange(start, end), low, high),
                low,
                high,
                high_is_primary,
            );
        if end <= before.len() {
            assert forall|i: int| start <= i < end implies #[trigger] before[i] is Some by {
                assert(line[i] is Some);
            }
            assert(line.subrange(start, end) =~= before.subrange(start, end));
            assert(contour::is_run(before, start, end));
        } else {
            assert(start > before.len()) by {
                if start <= before.len() {
                    assert(line[before.len() as int] is Some);
                }
            }
            assert forall|i: int| start - shift <= i < end - shift implies #[trigger] after[
            i] is Some by {
                assert(line[i + shift] is Some);
            }
            assert(line.subrange(start, end) =~= after.subrange(start - shift, end - shift));
            assert(contour::is_run(after, start - shift, end - shift));
        }
    }
}

/// Where the inks are not far apart, a run is complex only if its ink changes three times.
pub proof fn law_subtle_borders_are_allowed(
    inks: Seq<bool>,
    low: int,
    high: int,
    high_is_primary: bool,
)
    requires
        high - low <= contour::MAX_SUBTLE_BORDER_SPAN,
    ensures
        contour::is_complex_run(inks, low, high, high_is_primary) <==> contour::changes(inks) >= 3,
{
}

/// Whether the ink of a theme is a grey.
pub open spec fn has_grey_ink(theme: ThemeContext) -> bool {
    !tone::is_coloured([theme.ink[0], theme.ink[1], theme.ink[2], 255])
}

/// `after` is what painting makes of `before`.
pub open spec fn is_painted(
    before: RgbaImage,
    after: RgbaImage,
    theme: ThemeContext,
    verdict: Verdict,
) -> bool {
    &&& after.width == before.width
    &&& after.height == before.height
    &&& after.bytes@ == paint::painted(before, theme, verdict)
}

/// Painting in one colour leaves the badge of an icon what it was, if that colour is a grey or
/// the icon has no badge.
proof fn lemma_badge_survives(
    before: RgbaImage,
    after: RgbaImage,
    theme: ThemeContext,
    verdict: Verdict,
)
    requires
        before.is_valid(),
        verdict is Monotone || verdict is Symbolic,
        is_painted(before, after, theme, verdict),
        has_grey_ink(theme) || !shows_badge(before),
    ensures
        badge::visible_mask(pixels_in(after)) == badge::visible_mask(pixels_in(before)),
        shows_badge(after) == shows_badge(before),
        shows_badge(before) ==> badge::coloured_mask(pixels_in(after)) == badge::coloured_mask(
            pixels_in(before),
        ),
{
    let (old_pixels, new_pixels) = (pixels_in(before), pixels_in(after));
    let (seen, tinted) = (badge::visible_mask(new_pixels), badge::coloured_mask(new_pixels));
    law_alpha_is_kept(before, theme, verdict);
    law_kept_pixels_stay(before, theme, verdict);
    law_one_tone_takes_the_ink(before, theme, verdict);
    assert(new_pixels == painted_pixels(before, theme, verdict));
    assert(seen =~= badge::visible_mask(old_pixels));
    assert forall|i: int| 0 <= i < new_pixels.len() && !keeps(before, i) implies tone::is_coloured(
        #[trigger] new_pixels[i],
    ) == !has_grey_ink(theme) by {
        assert(new_pixels[i][0] == theme.ink[0]);
        assert(new_pixels[i][1] == theme.ink[1]);
        assert(new_pixels[i][2] == theme.ink[2]);
    }
    if shows_badge(before) {
        assert forall|i: int| 0 <= i < tinted.len() implies tinted[i] == badge::coloured_mask(
            old_pixels,
        )[i] by {
            if tone::is_visible(old_pixels[i]) && tone::is_coloured(old_pixels[i]) {
                law_badges_hold_all_colour(before, i);
            }
        }
        assert(tinted =~= badge::coloured_mask(old_pixels));
    } else {
        if has_grey_ink(theme) {
            assert forall|i: int| 0 <= i < new_pixels.len() implies !(tone::is_visible(
                #[trigger] new_pixels[i],
            ) && tone::is_coloured(new_pixels[i])) by {}
            lemma_no_colour_no_badge(after);
        } else {
            assert(tinted =~= seen);
        }
    }
}

/// A symbolic icon that is painted a second time stays as the first time left it. The ink has
/// to be a grey where the icon has a badge: an ink with a colour would be taken for part of it.
pub proof fn law_symbolic_painting_settles(
    before: RgbaImage,
    after: RgbaImage,
    theme: ThemeContext,
)
    requires
        before.is_valid(),
        is_painted(before, after, theme, Verdict::Symbolic),
        has_grey_ink(theme) || !shows_badge(before),
    ensures
        paint::decide(after, theme.colour_icons, true) == Verdict::Symbolic,
        paint::painted(after, theme, Verdict::Symbolic) == after.bytes@,
{
    lemma_badge_survives(before, after, theme, Verdict::Symbolic);
    lemma_second_coat(before, after, theme, Verdict::Symbolic);
}

/// A second coat of one colour changes nothing where the badge is what it was.
proof fn lemma_second_coat(
    before: RgbaImage,
    after: RgbaImage,
    theme: ThemeContext,
    verdict: Verdict,
)
    requires
        before.is_valid(),
        verdict is Monotone || verdict is Symbolic,
        is_painted(before, after, theme, verdict),
        shows_badge(after) == shows_badge(before),
        shows_badge(before) ==> badge::coloured_mask(pixels_in(after)) == badge::coloured_mask(
            pixels_in(before),
        ),
    ensures
        forall|i: int|
            0 <= i < pixels_in(before).len() ==> #[trigger] keeps(after, i) == keeps(before, i),
        paint::painted(after, theme, verdict) == after.bytes@,
{
    law_alpha_is_kept(before, theme, verdict);
    assert(pixels_in(after) == painted_pixels(before, theme, verdict));
    assert forall|i: int| 0 <= i < pixels_in(before).len() implies #[trigger] keeps(after, i)
        == keeps(before, i) by {
        assert(pixels_in(after)[i][3] == pixels_in(before)[i][3]);
    }
    let again = paint::painted(after, theme, verdict);
    assert forall|k: int| 0 <= k < again.len() implies again[k] == after.bytes@[k] by {
        assert(k / 4 < pixels_in(before).len());
        assert(keeps(after, k / 4) == keeps(before, k / 4));
    }
    assert(again =~= after.bytes@);
}

/// An icon of one tone that was painted in a grey has one tone still, and painting it again
/// changes nothing.
pub proof fn law_one_tone_painting_settles(
    before: RgbaImage,
    after: RgbaImage,
    theme: ThemeContext,
)
    requires
        before.is_valid(),
        paint::decide(before, true, false) == Verdict::Monotone,
        is_painted(before, after, theme, Verdict::Monotone),
        has_grey_ink(theme),
    ensures
        paint::decide(after, true, false) == Verdict::Monotone,
        paint::painted(after, theme, Verdict::Monotone) == after.bytes@,
{
    let (w, h) = (before.width as int, before.height as int);
    lemma_badge_survives(before, after, theme, Verdict::Monotone);
    lemma_second_coat(before, after, theme, Verdict::Monotone);
    lemma_samples_take_the_ink(before, after, theme);
    let old_samples = paint::samples_of(pixels_in(before), w, h);
    let new_samples = paint::samples_of(pixels_in(after), w, h);
    tone::lemma_lowest_tone(old_samples);
    tone::lemma_lowest_tone(new_samples);
    tone::lemma_highest_tone(new_samples);
    lemma_tone_range(old_samples);
    let i = choose|i: int| 0 <= i < old_samples.len() && !(#[trigger] old_samples[i] is None);
    assert(new_samples[i] is Some);
    assert(!paint::has_colour(new_samples));
    assert(after.is_valid());
}

/// An icon of one tone that was painted in a grey is judged by the same places, which all have
/// the ink of the theme.
proof fn lemma_samples_take_the_ink(before: RgbaImage, after: RgbaImage, theme: ThemeContext)
    requires
        before.is_valid(),
        is_painted(before, after, theme, Verdict::Monotone),
        has_grey_ink(theme),
    ensures
        ({
            let (w, h) = (before.width as int, before.height as int);
            let old_samples = paint::samples_of(pixels_in(before), w, h);
            let new_samples = paint::samples_of(pixels_in(after), w, h);
            &&& new_samples.len() == old_samples.len()
            &&& forall|i: int|
                0 <= i < old_samples.len() ==> (#[trigger] new_samples[i] is Some
                    <==> old_samples[i] is Some)
            &&& forall|i: int|
                0 <= i < new_samples.len() && #[trigger] new_samples[i] is Some ==> tone::tone_of(
                    new_samples[i]->0,
                ) == tone::tone_of([theme.ink[0], theme.ink[1], theme.ink[2], 255])
                    && !tone::is_coloured(new_samples[i]->0)
        }),
{
    let verdict = Verdict::Monotone;
    let (w, h) = (before.width as int, before.height as int);
    lemma_badge_survives(before, after, theme, verdict);
    law_alpha_is_kept(before, theme, verdict);
    law_one_tone_takes_the_ink(before, theme, verdict);
    let (old_pixels, new_pixels) = (pixels_in(before), pixels_in(after));
    assert(new_pixels == painted_pixels(before, theme, verdict));
    let old_samples = paint::samples_of(old_pixels, w, h);
    let new_samples = paint::samples_of(new_pixels, w, h);
    assert forall|i: int| 0 <= i < old_samples.len() implies (#[trigger] new_samples[i] is Some
        <==> old_samples[i] is Some) by {
        assert(badge::visible_mask(new_pixels)[i] == badge::visible_mask(old_pixels)[i]);
        assert(badge::beside_badge(new_pixels, w, h, i) == badge::beside_badge(
            old_pixels,
            w,
            h,
            i,
        ));
    }
    assert forall|i: int|
        0 <= i < new_samples.len() && #[trigger] new_samples[i] is Some implies tone::tone_of(
        new_samples[i]->0,
    ) == tone::tone_of([theme.ink[0], theme.ink[1], theme.ink[2], 255]) && !tone::is_coloured(
        new_samples[i]->0,
    ) by {
        assert(old_samples[i] is Some);
        lemma_badge_is_beside_itself(before, i);
        assert(!keeps(before, i));
        assert(new_pixels[i][0] == theme.ink[0]);
        assert(new_pixels[i][1] == theme.ink[1]);
        assert(new_pixels[i][2] == theme.ink[2]);
    }
}

/// A pixel of a badge is one that is left out when the icon is judged.
proof fn lemma_badge_is_beside_itself(image: RgbaImage, i: int)
    requires
        image.is_valid(),
        0 <= i < pixels_in(image).len(),
    ensures
        badge::in_badge(pixels_in(image), image.width as int, image.height as int, i)
            ==> badge::beside_badge(pixels_in(image), image.width as int, image.height as int, i),
{
    raster::lemma_position(i, image.width as int, image.height as int);
}

} // verus!

//! The decision on an icon, and its painting.

use vstd::prelude::*;

use crate::badge;
use crate::badge::Badge;
use crate::contour;
use crate::decision::{PaintDecision, Verdict};
use crate::palette;
use crate::raster;
use crate::raster::{Pixel, RgbaImage};
use crate::theme::ThemeContext;
use crate::tone;
use crate::tone::Histogram;

verus! {

/// The pixels that an icon is judged by: the visible ones, but for a badge and its rim.
pub open spec fn samples_of(pixels: Seq<Pixel>, width: int, height: int) -> Seq<Option<Pixel>> {
    Seq::new(
        pixels.len(),
        |i: int|
            if tone::is_visible(pixels[i]) && !badge::beside_badge(pixels, width, height, i) {
                Some(pixels[i])
            } else {
                None
            },
    )
}

/// The visible pixels, but for those close to a given badge.
pub open spec fn samples_outside(pixels: Seq<Pixel>, width: int, badge: Option<&Badge>) -> Seq<
    Option<Pixel>,
> {
    Seq::new(
        pixels.len(),
        |i: int|
            if tone::is_visible(pixels[i]) && !(badge matches Some(found) && found.affects(
                i % width,
                i / width,
            )) {
                Some(pixels[i])
            } else {
                None
            },
    )
}

/// The tone of a sample.
pub open spec fn level_of(sample: Option<Pixel>) -> Option<u8> {
    match sample {
        Some(pixel) => Some(tone::tone_of(pixel) as u8),
        None => None,
    }
}

/// The tones of samples.
pub open spec fn levels_of(samples: Seq<Option<Pixel>>) -> Seq<Option<u8>> {
    Seq::new(samples.len(), |i: int| level_of(samples[i]))
}

/// Whether some sample is coloured.
pub open spec fn has_colour(samples: Seq<Option<Pixel>>) -> bool {
    exists|i: int|
        0 <= i < samples.len() && (#[trigger] samples[i] matches Some(pixel) && tone::is_coloured(
            pixel,
        ))
}

/// The decision on a grey icon whose samples have tones from `low` to `high`.
pub open spec fn judge_tones(
    samples: Seq<Option<Pixel>>,
    width: int,
    height: int,
    low: int,
    high: int,
) -> Verdict {
    let low_mass = tone::mass(samples, low, low + tone::TONE_TOLERANCE);
    let high_mass = tone::mass(samples, high - tone::TONE_TOLERANCE, high);
    let high_is_primary = high_mass >= low_mass;
    if high - low <= palette::MAX_MONOTONE_SPAN {
        Verdict::Monotone
    } else if contour::has_complex_contours(
        levels_of(samples),
        width,
        height,
        low,
        high,
        high_is_primary,
    ) {
        Verdict::Original("original-complex-contours"@)
    } else if palette::explains(low_mass + high_mass, tone::mass(samples, 0, 255)) {
        Verdict::Duotone { low, high, high_is_primary }
    } else {
        match palette::solid_palette(samples, width, height) {
            Some(verdict) => verdict,
            None => Verdict::Original("original-multiple-tones"@),
        }
    }
}

/// The decision on an icon of given samples.
pub open spec fn judge(samples: Seq<Option<Pixel>>, width: int, height: int) -> Verdict {
    if has_colour(samples) {
        Verdict::Original("original-coloured"@)
    } else {
        match (tone::lowest_tone(samples), tone::highest_tone(samples)) {
            (Some(low), Some(high)) => judge_tones(samples, width, height, low, high),
            _ => Verdict::Original("original-empty"@),
        }
    }
}

/// The decision on an image.
pub open spec fn decide(image: RgbaImage, colour_icons: bool, explicit: bool) -> Verdict {
    let (width, height) = (image.width as int, image.height as int);
    if !colour_icons && !explicit {
        Verdict::Original("original-disabled"@)
    } else if !image.is_valid() {
        Verdict::Original("original-invalid"@)
    } else if explicit {
        Verdict::Symbolic
    } else {
        judge(samples_of(raster::pixels_of(image.bytes@), width, height), width, height)
    }
}

/// The visible pixels, but for those close to a given badge.
fn collect_samples(
    pixels: &[Pixel],
    width: usize,
    height: usize,
    badge: Option<&Badge>,
) -> (samples: Vec<Option<Pixel>>)
    requires
        pixels@.len() == width * height,
        badge::visible_mask(pixels@).contains(true) ==> (badge matches Some(found)
            ==> found.columns@.len() > 0 && found.rows@.len() > 0),
    ensures
        samples@ == samples_outside(pixels@, width as int, badge),
{
    let ghost (w, h): (int, int) = (width as int, height as int);
    let mut samples: Vec<Option<Pixel>> = Vec::new();
    let mut index: usize = 0;
    while index < pixels.len()
        invariant
            index <= pixels@.len() == w * h,
            w == width,
            h == height,
            badge::visible_mask(pixels@).contains(true) ==> (badge matches Some(found)
                ==> found.columns@.len() > 0 && found.rows@.len() > 0),
            samples@ == samples_outside(pixels@, w, badge).take(index as int),
        decreases pixels@.len() - index,
    {
        proof {
            raster::lemma_sides(w, h);
        }
        let pixel: Pixel = pixels[index];
        if pixel[3] < tone::MIN_ALPHA {
            samples.push(None);
        } else {
            assert(badge::visible_mask(pixels@)[index as int]);
            let hidden: bool = match badge {
                Some(found) => found.affects_analysis(index % width, index / width),
                None => false,
            };
            if hidden {
                samples.push(None);
            } else {
                samples.push(Some(pixel));
            }
        }
        index += 1;
    }
    samples
}

/// The tones of samples.
fn collect_levels(samples: &[Option<Pixel>]) -> (levels: Vec<Option<u8>>)
    ensures
        levels@ == levels_of(samples@),
{
    let mut levels: Vec<Option<u8>> = Vec::new();
    let mut index: usize = 0;
    while index < samples.len()
        invariant
            index <= samples@.len(),
            levels@ == levels_of(samples@).take(index as int),
        decreases samples@.len() - index,
    {
        match samples[index] {
            Some(pixel) => {
                levels.push(Some(tone::intensity(pixel)));
            },
            None => {
                levels.push(None);
            },
        }
        index += 1;
    }
    levels
}

/// Judges an icon by its visible pixels, but for those close to its badge.
pub fn classify(pixels: &[Pixel], width: usize, height: usize, badge: Option<&Badge>) -> (decision:
    PaintDecision)
    requires
        pixels@.len() == width * height,
        badge::visible_mask(pixels@).contains(true) ==> (badge matches Some(found)
            ==> found.columns@.len() > 0 && found.rows@.len() > 0),
    ensures
        decision@ == judge(
            samples_outside(pixels@, width as int, badge),
            width as int,
            height as int,
        ),
{
    let samples: Vec<Option<Pixel>> = collect_samples(pixels, width, height, badge);
    let mut histogram: Histogram = Histogram::new();
    let mut index: usize = 0;
    proof {
        assert(samples@.take(0) =~= Seq::empty());
        assert(pixels.len() <= usize::MAX);
    }
    while index < samples.len()
        invariant
            index <= samples@.len() <= usize::MAX,
            samples@ == samples_outside(pixels@, width as int, badge),
            histogram@ == tone::histogram_of(samples@.take(index as int)),
            forall|i: int|
                0 <= i < index ==> (#[trigger] samples@[i] matches Some(pixel)
                    ==> !tone::is_coloured(pixel)),
        decreases samples@.len() - index,
    {
        proof {
            tone::lemma_histogram_step(samples@, index as int);
        }
        if let Some(pixel) = samples[index] {
            if tone::chroma(pixel) > tone::MAX_NEUTRAL_CHROMA {
                assert(has_colour(samples@));
                return PaintDecision::Original("original-coloured");
            }
            histogram.add(pixel);
        }
        index += 1;
    }
    let lowest: Option<u8> = histogram.lowest();
    let highest: Option<u8> = histogram.highest();
    proof {
        assert(samples@.take(index as int) =~= samples@);
        assert(!has_colour(samples@));
        tone::lemma_histogram_ends(samples@, lowest, highest);
        tone::lemma_range_sum_is_mass(samples@, 0, 255);
        tone::lemma_mass_bound(samples@, 0, 255);
    }
    let (low, high): (u8, u8) = match (lowest, highest) {
        (Some(low), Some(high)) => (low, high),
        _ => return PaintDecision::Original("original-empty"),
    };
    if high - low <= palette::MAX_MONOTONE_SPAN {
        return PaintDecision::Monotone;
    }
    let low_mass: u128 = histogram.between(low, low + tone::TONE_TOLERANCE);
    let high_mass: u128 = histogram.between(high - tone::TONE_TOLERANCE, high);
    let total: u128 = histogram.between(0, 255);
    proof {
        let tolerance = tone::TONE_TOLERANCE as int;
        tone::lemma_range_sum_is_mass(samples@, low as int, low + tolerance);
        tone::lemma_range_sum_is_mass(samples@, high - tolerance, high as int);
        tone::lemma_mass_bound(samples@, low as int, low + tolerance);
        tone::lemma_mass_bound(samples@, high - tolerance, high as int);
    }
    let high_is_primary: bool = high_mass >= low_mass;
    let levels: Vec<Option<u8>> = collect_levels(&samples);
    if contour::complex_contours(width, height, &levels, low, high, high_is_primary) {
        return PaintDecision::Original("original-complex-contours");
    }
    if palette::explained(low_mass + high_mass, total) {
        return PaintDecision::Duotone { low, high, high_is_primary };
    }
    match palette::antialiased_palette(width, height, &samples) {
        Some(decision) => decision,
        None => PaintDecision::Original("original-multiple-tones"),
    }
}

/// The weaker of the two colours of a theme, channel by channel: seven parts of its ink and
/// three of its background, rounded.
pub open spec fn secondary_of(theme: ThemeContext, channel: int) -> int {
    (theme.ink[channel] * 7 + theme.background[channel] * 3 + 5) / 10
}

/// How much of the ink of the theme a tone takes, out of `high - low`; the rest is of the
/// weaker colour. Tones beyond `low` and `high` count as those.
pub open spec fn primary_weight(t: int, low: int, high: int, high_is_primary: bool) -> int {
    let level = vstd::math::max(low, vstd::math::min(t, high)) - low;
    if high_is_primary {
        level
    } else {
        high - low - level
    }
}

/// `weight` parts of `primary` and the rest, out of `span`, of `secondary`, rounded.
pub open spec fn mix(primary: int, secondary: int, weight: int, span: int) -> int {
    (primary * weight + secondary * (span - weight) + span / 2) / span
}

/// A channel of the colour that a decision gives a pixel.
pub open spec fn colour_of(
    pixel: Pixel,
    theme: ThemeContext,
    verdict: Verdict,
    channel: int,
) -> int {
    match verdict {
        Verdict::Duotone { low, high, high_is_primary } => mix(
            theme.ink[channel] as int,
            secondary_of(theme, channel),
            primary_weight(tone::tone_of(pixel), low, high, high_is_primary),
            high - low,
        ),
        _ => theme.ink[channel] as int,
    }
}

/// Whether painting leaves a pixel alone: nothing of it is to be seen, or it is part of a
/// badge.
pub open spec fn is_kept(pixels: Seq<Pixel>, width: int, height: int, i: int) -> bool {
    pixels[i][3] == 0 || badge::in_badge(pixels, width, height, i)
}

/// The bytes of an image after painting. Alpha stays, and so do pixels left alone.
pub open spec fn painted(image: RgbaImage, theme: ThemeContext, verdict: Verdict) -> Seq<u8> {
    let pixels = raster::pixels_of(image.bytes@);
    Seq::new(
        image.bytes@.len(),
        |k: int|
            if k % 4 == 3 || is_kept(pixels, image.width as int, image.height as int, k / 4) {
                image.bytes@[k]
            } else {
                colour_of(pixels[k / 4], theme, verdict, k % 4) as u8
            },
    )
}

/// A mixed channel is a channel.
proof fn lemma_mix_bound(primary: int, secondary: int, weight: int, span: int)
    requires
        0 <= primary <= 255,
        0 <= secondary <= 255,
        0 <= weight <= span,
        0 < span,
    ensures
        0 <= primary * weight <= 255 * span,
        0 <= secondary * (span - weight) <= 255 * span,
        0 <= mix(primary, secondary, weight, span) <= 255,
{
    let rest = span - weight;
    assert(0 <= primary * weight <= 255 * weight) by (nonlinear_arith)
        requires
            0 <= primary <= 255,
            0 <= weight,
    ;
    assert(0 <= secondary * rest <= 255 * rest) by (nonlinear_arith)
        requires
            0 <= secondary <= 255,
            0 <= rest,
    ;
    let sum = primary * weight + secondary * rest + span / 2;
    assert(0 <= sum < 256 * span);
    assert(0 <= sum / span < 256) by (nonlinear_arith)
        requires
            0 <= sum < 256 * span,
            0 < span,
    ;
}

/// One channel of the weaker colour of a theme.
fn secondary(theme: &ThemeContext, channel: usize) -> (value: u8)
    requires
        channel < 3,
    ensures
        value == secondary_of(*theme, channel as int),
{
    ((theme.ink[channel] as u16 * 7 + theme.background[channel] as u16 * 3 + 5) / 10) as u8
}

/// One channel of the colour that a decision gives a pixel.
fn colour(
    pixel: Pixel,
    theme: &ThemeContext,
    decision: PaintDecision,
    channel: usize,
) -> (value: u8)
    requires
        channel < 3,
        decision@ matches Verdict::Duotone { low, high, .. } ==> low < high,
    ensures
        value == colour_of(pixel, *theme, decision@, channel as int),
{
    match decision {
        PaintDecision::Duotone { low, high, high_is_primary } => {
            let span: u32 = (high - low) as u32;
            let level: u32 = (tone::intensity(pixel).min(high).max(low) - low) as u32;
            let weight: u32 = if high_is_primary {
                level
            } else {
                span - level
            };
            let first: u32 = theme.ink[channel] as u32;
            let second: u32 = secondary(theme, channel) as u32;
            proof {
                lemma_mix_bound(first as int, second as int, weight as int, span as int);
            }
            ((first * weight + second * (span - weight) + span / 2) / span) as u8
        },
        _ => theme.ink[channel],
    }
}

/// A decision for two tones puts them further apart than one tone may reach.
proof fn lemma_duotone_span(samples: Seq<Option<Pixel>>, width: int, height: int)
    ensures
        judge(samples, width, height) matches Verdict::Duotone { low, high, .. } ==> high - low
            > palette::MAX_MONOTONE_SPAN,
{
}

/// The badge found on an icon leaves the samples that the icon is judged by.
proof fn lemma_samples(pixels: Seq<Pixel>, width: int, height: int, found: Option<&Badge>)
    requires
        found is Some <==> badge::has_badge(pixels, width, height),
        found matches Some(mark) ==> mark.is_of(badge::coloured_mask(pixels), width, height),
    ensures
        samples_outside(pixels, width, found) == samples_of(pixels, width, height),
{
    if let Some(mark) = found {
        badge::lemma_badge_holds(*mark, badge::coloured_mask(pixels), width, height);
    }
    assert(samples_outside(pixels, width, found) =~= samples_of(pixels, width, height));
}

/// Decides on an image and paints it in the colours of a theme.
///
/// An image that is not to be painted stays as it is. In any other, every pixel that is to be
/// seen at all and is not part of a badge takes the colour of the decision and keeps its
/// alpha.
pub fn recolour(image: &mut RgbaImage, theme: &ThemeContext, explicit: bool) -> (decision:
    PaintDecision)
    ensures
        decision@ == decide(*old(image), theme.colour_icons, explicit),
        final(image).width == old(image).width,
        final(image).height == old(image).height,
        final(image).bytes@.len() == old(image).bytes@.len(),
        forall|k: int|
            0 <= k < old(image).bytes@.len() && k % 4 == 3 ==> #[trigger] final(image).bytes@[k]
                == old(image).bytes@[k],
        decision@ is Original ==> *final(image) == *old(image),
        decision@ !is Original ==> {
            &&& final(image).width == old(image).width
            &&& final(image).height == old(image).height
            &&& final(image).bytes@ == painted(*old(image), *theme, decision@)
        },
{
    if !theme.colour_icons && !explicit {
        return PaintDecision::Original("original-disabled");
    }
    let (width, height, pixels): (usize, usize, Vec<Pixel>) = match raster::pixels(image) {
        Some(grid) => grid,
        None => return PaintDecision::Original("original-invalid"),
    };
    let found: Option<Badge> = badge::classify_badge(&pixels, width, height);
    let mark: Option<&Badge> = found.as_ref();
    let decision: PaintDecision = if explicit {
        PaintDecision::Symbolic
    } else {
        proof {
            lemma_samples(pixels@, width as int, height as int, mark);
            lemma_duotone_span(
                samples_of(pixels@, width as int, height as int),
                width as int,
                height as int,
            );
        }
        classify(&pixels, width, height, mark)
    };
    if let PaintDecision::Original(_) = decision {
        return decision;
    }
    let ghost start = *image;
    assert(image.bytes.len() <= usize::MAX);
    let ghost target = painted(start, *theme, decision@);
    let ghost (w, h): (int, int) = (width as int, height as int);
    proof {
        if let Some(badge) = mark {
            badge::lemma_badge_holds(*badge, badge::coloured_mask(pixels@), w, h);
        }
    }
    let mut index: usize = 0;
    while index < pixels.len()
        invariant
            index <= pixels@.len() == w * h,
            w == width == start.width,
            h == height == start.height,
            start.bytes@.len() == 4 * (w * h) <= usize::MAX,
            pixels@ == raster::pixels_of(start.bytes@),
            image.width == start.width,
            image.height == start.height,
            image.bytes@.len() == start.bytes@.len(),
            target == painted(start, *theme, decision@),
            decision@ matches Verdict::Duotone { low, high, .. } ==> low < high,
            mark is Some <==> badge::has_badge(pixels@, w, h),
            mark matches Some(badge) ==> badge.columns@.len() == w && badge.rows@.len() == h,
            mark matches Some(badge) ==> forall|x: int, y: int|
                0 <= x < w && 0 <= y < h ==> (#[trigger] badge.holds(x, y) <==> badge::is_covered(
                    badge::coloured_mask(pixels@),
                    w,
                    h,
                    x,
                    y,
                )),
            forall|k: int| 0 <= k < 4 * index ==> image.bytes@[k] == target[k],
            forall|k: int|
                4 * index <= k < start.bytes@.len() ==> image.bytes@[k] == start.bytes@[k],
        decreases pixels@.len() - index,
    {
        proof {
            raster::lemma_sides(w, h);
            raster::lemma_position(index as int, w, h);
        }
        let pixel: Pixel = pixels[index];
        let kept: bool = pixel[3] == 0 || match mark {
            Some(badge) => badge.contains(index % width, index / width),
            None => false,
        };
        if !kept {
            let at: usize = index * 4;
            image.bytes[at] = colour(pixel, theme, decision, 0);
            image.bytes[at + 1] = colour(pixel, theme, decision, 1);
            image.bytes[at + 2] = colour(pixel, theme, decision, 2);
        }
        index += 1;
    }
    proof {
        assert(image.bytes@ =~= target);
    }
    decision
}

} // verus!

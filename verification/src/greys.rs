//! What brightness, colour and mass are, in terms of the channels of pixels.

use vstd::prelude::*;

use crate::raster;
use crate::raster::{Pixel, RgbaImage};
use crate::sums;
use crate::tone;

verus! {

/// A tone is the mean of the channels, green counting most and blue least, to the nearest
/// step; halfway it is the brighter one. Alpha plays no part.
pub proof fn law_tones_are_rounded_means(pixel: Pixel)
    ensures
        -128 < 256 * tone::tone_of(pixel) - (54 * pixel[0] + 183 * pixel[1] + 19 * pixel[2])
            <= 128,
        0 <= tone::tone_of(pixel) <= 255,
{
}

/// The tone of a grey is the level of its channels.
pub proof fn law_greys_are_their_own_tone(pixel: Pixel)
    requires
        pixel[0] == pixel[1] == pixel[2],
    ensures
        tone::tone_of(pixel) == pixel[0],
{
}

/// A pixel with no channel darker has a tone no darker.
pub proof fn law_tones_follow_the_channels(pixel: Pixel, brighter: Pixel)
    requires
        pixel[0] <= brighter[0],
        pixel[1] <= brighter[1],
        pixel[2] <= brighter[2],
    ensures
        tone::tone_of(pixel) <= tone::tone_of(brighter),
{
}

/// A pixel is coloured where two of its channels are more than sixteen steps apart.
pub proof fn law_colour_parts_the_channels(pixel: Pixel)
    ensures
        tone::is_coloured(pixel) <==> exists|a: int, b: int|
            0 <= a < 3 && 0 <= b < 3 && #[trigger] pixel[a] - #[trigger] pixel[b] > 16,
{
    if tone::is_coloured(pixel) {
        assert(pixel[0] - pixel[1] > 16 || pixel[1] - pixel[0] > 16 || pixel[0] - pixel[2] > 16
            || pixel[2] - pixel[0] > 16 || pixel[1] - pixel[2] > 16 || pixel[2] - pixel[1] > 16);
    }
}

/// The chroma of a pixel is the largest distance between two of its colour channels.
pub proof fn law_chroma_is_the_widest_distance(pixel: Pixel)
    ensures
        forall|a: int, b: int|
            0 <= a < 3 && 0 <= b < 3 ==> #[trigger] pixel[a] - #[trigger] pixel[b]
                <= tone::chroma_of(pixel),
        exists|a: int, b: int|
            0 <= a < 3 && 0 <= b < 3 && #[trigger] pixel[a] - #[trigger] pixel[b]
                == tone::chroma_of(pixel),
{
    assert(pixel[0] - pixel[1] == tone::chroma_of(pixel) || pixel[1] - pixel[0] == tone::chroma_of(
        pixel,
    ) || pixel[0] - pixel[2] == tone::chroma_of(pixel) || pixel[2] - pixel[0] == tone::chroma_of(
        pixel,
    ) || pixel[1] - pixel[2] == tone::chroma_of(pixel) || pixel[2] - pixel[1] == tone::chroma_of(
        pixel,
    ));
}

/// A pixel is visible from an alpha of sixteen on, whatever its colour.
pub proof fn law_sight_is_alpha(pixel: Pixel)
    ensures
        pixel[3] >= 16 ==> tone::is_visible(pixel),
        pixel[3] < 16 ==> !tone::is_visible(pixel),
{
}

/// Tones count as one up to a distance of twelve, either way.
pub proof fn law_tones_close_by_count_as_one(a: int, b: int, d: int)
    requires
        b == a + d,
    ensures
        tone::is_close(a, b) <==> -12 <= d <= 12,
        tone::is_close(a, b) == tone::is_close(b, a),
{
}

/// A mass is the alpha of the samples whose tones lie in the range.
pub proof fn law_masses_are_alpha(samples: Seq<Option<Pixel>>, low: int, high: int)
    ensures
        tone::mass(samples, low, high) == sums::alpha_where(
            samples,
            |i: int| low <= tone::tone_of(samples[i]->0) <= high,
        ),
{
    sums::lemma_mass_where(
        samples,
        low,
        high,
        |i: int| low <= tone::tone_of(samples[i]->0) <= high,
    );
}

/// The mass of all tones is the alpha of all samples.
pub proof fn law_all_tones_hold_all_alpha(samples: Seq<Option<Pixel>>)
    ensures
        tone::mass(samples, 0, 255) == sums::alpha_of(samples),
{
    sums::lemma_mass_where(samples, 0, 255, |i: int| true);
}

/// Samples put together have the masses of their parts together.
pub proof fn law_masses_add_up(
    samples: Seq<Option<Pixel>>,
    more: Seq<Option<Pixel>>,
    low: int,
    high: int,
)
    ensures
        tone::mass(samples + more, low, high) == tone::mass(samples, low, high) + tone::mass(
            more,
            low,
            high,
        ),
    decreases more.len(),
{
    if more.len() == 0 {
        assert(samples + more =~= samples);
    } else {
        law_masses_add_up(samples, more.drop_last(), low, high);
        assert((samples + more).drop_last() =~= samples + more.drop_last());
    }
}

/// The darkest tone is that of a sample with alpha than which no sample with alpha is darker,
/// and such a tone is the darkest.
pub proof fn law_the_darkest_tone(samples: Seq<Option<Pixel>>, t: int)
    ensures
        tone::lowest_tone(samples) == Some(t) <==> {
            &&& exists|i: int|
                0 <= i < samples.len() && (#[trigger] samples[i] matches Some(pixel) && pixel[3]
                    > 0 && tone::tone_of(pixel) == t)
            &&& forall|i: int|
                0 <= i < samples.len() ==> (#[trigger] samples[i] matches Some(pixel) ==> pixel[3]
                    > 0 ==> t <= tone::tone_of(pixel))
        },
{
    tone::lemma_lowest_tone(samples);
    if exists|i: int|
        0 <= i < samples.len() && (#[trigger] samples[i] matches Some(pixel) && pixel[3] > 0
            && tone::tone_of(pixel) == t) {
        let i = choose|i: int|
            0 <= i < samples.len() && (#[trigger] samples[i] matches Some(pixel) && pixel[3] > 0
                && tone::tone_of(pixel) == t);
        assert(tone::weighs(samples[i]));
    }
    if let Some(least) = tone::lowest_tone(samples) {
        let i = choose|i: int|
            0 <= i < samples.len() && tone::weighs(#[trigger] samples[i]) && tone::tone_of(
                samples[i]->0,
            ) == least;
        assert(samples[i] is Some);
    }
}

/// The brightest tone is that of a sample with alpha than which no sample with alpha is
/// brighter, and such a tone is the brightest.
pub proof fn law_the_brightest_tone(samples: Seq<Option<Pixel>>, t: int)
    ensures
        tone::highest_tone(samples) == Some(t) <==> {
            &&& exists|i: int|
                0 <= i < samples.len() && (#[trigger] samples[i] matches Some(pixel) && pixel[3]
                    > 0 && tone::tone_of(pixel) == t)
            &&& forall|i: int|
                0 <= i < samples.len() ==> (#[trigger] samples[i] matches Some(pixel) ==> pixel[3]
                    > 0 ==> tone::tone_of(pixel) <= t)
        },
{
    tone::lemma_highest_tone(samples);
    if exists|i: int|
        0 <= i < samples.len() && (#[trigger] samples[i] matches Some(pixel) && pixel[3] > 0
            && tone::tone_of(pixel) == t) {
        let i = choose|i: int|
            0 <= i < samples.len() && (#[trigger] samples[i] matches Some(pixel) && pixel[3] > 0
                && tone::tone_of(pixel) == t);
        assert(tone::weighs(samples[i]));
    }
    if let Some(most) = tone::highest_tone(samples) {
        let i = choose|i: int|
            0 <= i < samples.len() && tone::weighs(#[trigger] samples[i]) && tone::tone_of(
                samples[i]->0,
            ) == most;
        assert(samples[i] is Some);
    }
}

/// Pixels are the bytes of an image, four by four and in order.
pub proof fn law_pixels_are_four_bytes(bytes: Seq<u8>, i: int, channel: int)
    requires
        0 <= i,
        0 <= channel < 4,
        4 * i + 3 < bytes.len(),
    ensures
        i < raster::pixels_of(bytes).len(),
        raster::pixels_of(bytes)[i][channel] == bytes[4 * i + channel],
{
}

/// An image is valid exactly where it has columns and rows and four bytes for each pixel.
pub proof fn law_valid_images_have_four_bytes_a_pixel(image: RgbaImage)
    ensures
        image.is_valid() <==> image.width >= 1 && image.height >= 1 && image.bytes@.len() == 4 * (
        image.width * image.height),
{
}

/// The entries of a range add up: none is nothing, one is itself, and two ranges that meet are
/// their range together.
pub proof fn law_ranges_add_up(entries: Seq<nat>, low: int, middle: int, high: int)
    requires
        low <= middle <= high + 1,
    ensures
        tone::range_sum(entries, low, low - 1) == 0,
        tone::range_sum(entries, low, low) == entries[low],
        tone::range_sum(entries, low, high) == tone::range_sum(entries, low, middle - 1)
            + tone::range_sum(entries, middle, high),
    decreases high - middle + 1,
{
    assert(tone::range_sum(entries, low, low - 1) == 0);
    if middle <= high {
        law_ranges_add_up(entries, low, middle, high - 1);
    }
}

/// A histogram has an entry for each of the tones of a byte: the alpha of the samples of that
/// tone.
pub proof fn law_histograms_hold_the_alpha_of_each_tone(samples: Seq<Option<Pixel>>, t: int)
    requires
        0 <= t < 256,
    ensures
        tone::histogram_of(samples).len() == 256,
        tone::histogram_of(samples)[t] == sums::alpha_where(
            samples,
            |i: int| tone::tone_of(samples[i]->0) == t,
        ),
{
    sums::lemma_mass_where(samples, t, t, |i: int| tone::tone_of(samples[i]->0) == t);
}

} // verus!

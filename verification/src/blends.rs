//! What the palette of an antialiased icon is, in terms of its samples and of the places around
//! them.

use vstd::arithmetic::div_mod::*;
use vstd::prelude::*;

use crate::decision::Verdict;
use crate::greys;
use crate::palette;
use crate::raster;
use crate::raster::Pixel;
use crate::sums;
use crate::tone;

verus! {

/// The place `dx` columns to the right of place `i` and `dy` rows below it.
pub open spec fn beside(i: int, dx: int, dy: int, width: int) -> int {
    i + dy * width + dx
}

/// Whether there is a place `dx` columns to the right of place `i` and `dy` rows below it.
pub open spec fn has_beside(i: int, dx: int, dy: int, width: int, height: int) -> bool {
    0 <= i % width + dx < width && 0 <= i / width + dy < height
}

/// Whether there is a sample, with a tone no more than twelve steps from `t`.
pub open spec fn is_like(sample: Option<Pixel>, t: int) -> bool {
    sample matches Some(pixel) && -12 <= tone::tone_of(pixel) - t <= 12
}

/// Whether all eight places around place `i` are in the grid and have samples like its own.
pub open spec fn is_core(samples: Seq<Option<Pixel>>, width: int, height: int, i: int) -> bool {
    samples[i] matches Some(pixel) && forall|dx: int, dy: int|
        -1 <= dx <= 1 && -1 <= dy <= 1 ==> has_beside(i, dx, dy, width, height) && is_like(
            samples[#[trigger] beside(i, dx, dy, width)],
            tone::tone_of(pixel),
        )
}

/// Whether some core with alpha has the tone `t`.
pub open spec fn has_core(samples: Seq<Option<Pixel>>, width: int, height: int, t: int) -> bool {
    exists|i: int|
        0 <= i < samples.len() && (#[trigger] samples[i])->0[3] > 0 && tone::tone_of(samples[i]->0)
            == t && is_core(samples, width, height, i)
}

/// Whether a sample like `t` is no more than two columns and two rows away from place `i`.
pub open spec fn is_within_reach(
    samples: Seq<Option<Pixel>>,
    width: int,
    height: int,
    i: int,
    t: int,
) -> bool {
    exists|dx: int, dy: int|
        -2 <= dx <= 2 && -2 <= dy <= 2 && has_beside(i, dx, dy, width, height) && is_like(
            samples[#[trigger] beside(i, dx, dy, width)],
            t,
        )
}

/// Whether a place no more than two columns and two rows away from place `i` has no sample, or
/// is none of the grid.
pub open spec fn is_by_a_gap(
    samples: Seq<Option<Pixel>>,
    width: int,
    height: int,
    i: int,
) -> bool {
    exists|dx: int, dy: int|
        -2 <= dx <= 2 && -2 <= dy <= 2 && (!has_beside(i, dx, dy, width, height)
            || samples[#[trigger] beside(i, dx, dy, width)] is None)
}

/// Whether two inks account for the sample at place `i`. It is like one of them; or it is an edge
/// between the two, with both within reach; or, where they are no more than twenty-four steps
/// apart, it is an edge of what they draw, with one of them and a gap within reach.
pub open spec fn is_accounted_for(
    samples: Seq<Option<Pixel>>,
    width: int,
    height: int,
    low: int,
    high: int,
    i: int,
) -> bool {
    ||| is_like(samples[i], low)
    ||| is_like(samples[i], high)
    ||| {
        &&& high - low > 24
        &&& is_within_reach(samples, width, height, i, low)
        &&& is_within_reach(samples, width, height, i, high)
    }
    ||| {
        &&& high - low <= 24
        &&& is_by_a_gap(samples, width, height, i)
        &&& {
            ||| is_within_reach(samples, width, height, i, low)
            ||| is_within_reach(samples, width, height, i, high)
        }
    }
}

/// The places near a place are those of the grid that so many columns and rows reach.
pub proof fn law_near_places_are_columns_and_rows_away(
    i: int,
    j: int,
    width: int,
    height: int,
    radius: int,
)
    requires
        0 < width,
        0 < height,
    ensures
        palette::is_near(i, j, width, height, radius) <==> exists|dx: int, dy: int|
            -radius <= dx <= radius && -radius <= dy <= radius && has_beside(
                i,
                dx,
                dy,
                width,
                height,
            ) && j == #[trigger] beside(i, dx, dy, width),
{
    if palette::is_near(i, j, width, height, radius) {
        lemma_near_is_beside(i, j, width, height, radius);
        let (dx, dy) = (j % width - i % width, j / width - i / width);
        assert(j == beside(i, dx, dy, width));
    }
    if exists|dx: int, dy: int|
        -radius <= dx <= radius && -radius <= dy <= radius && has_beside(i, dx, dy, width, height)
            && j == #[trigger] beside(i, dx, dy, width) {
        let (dx, dy) = choose|dx: int, dy: int|
            -radius <= dx <= radius && -radius <= dy <= radius && has_beside(
                i,
                dx,
                dy,
                width,
                height,
            ) && j == #[trigger] beside(i, dx, dy, width);
        lemma_beside_is_near(i, dx, dy, width, height, radius);
    }
}

/// A near place is so many columns and rows away.
proof fn lemma_near_is_beside(i: int, j: int, width: int, height: int, radius: int)
    requires
        0 < width,
        0 < height,
        palette::is_near(i, j, width, height, radius),
    ensures
        ({
            let (dx, dy) = (j % width - i % width, j / width - i / width);
            &&& -radius <= dx <= radius
            &&& -radius <= dy <= radius
            &&& has_beside(i, dx, dy, width, height)
            &&& j == beside(i, dx, dy, width)
        }),
{
    raster::lemma_position(j, width, height);
    lemma_fundamental_div_mod(i, width);
    let (p, q) = (j / width, i / width);
    assert((p - q) * width == p * width - width * q) by (nonlinear_arith);
}

/// A place of the grid so many columns and rows away is near.
proof fn lemma_beside_is_near(
    i: int,
    dx: int,
    dy: int,
    width: int,
    height: int,
    radius: int,
)
    requires
        0 < width,
        0 < height,
        -radius <= dx <= radius,
        -radius <= dy <= radius,
        has_beside(i, dx, dy, width, height),
    ensures
        palette::is_near(i, beside(i, dx, dy, width), width, height, radius),
        0 <= beside(i, dx, dy, width) < width * height,
{
    let (x, y) = (i % width + dx, i / width + dy);
    raster::lemma_cell(x, y, width, height);
    lemma_fundamental_div_mod(i, width);
    let q = i / width;
    assert((q + dy) * width == width * q + dy * width) by (nonlinear_arith);
    assert(beside(i, dx, dy, width) == raster::cell(x, y, width));
}

/// The middle of a solid area is a place with samples like its own on all eight sides.
pub proof fn law_solid_places_are_cores(
    samples: Seq<Option<Pixel>>,
    width: int,
    height: int,
    i: int,
)
    requires
        0 < width,
        0 < height,
        samples.len() == width * height,
        0 <= i < samples.len(),
    ensures
        palette::is_solid(samples, width, height, i) <==> is_core(samples, width, height, i),
{
    raster::lemma_position(i, width, height);
    if palette::is_solid(samples, width, height, i) {
        assert forall|dx: int, dy: int| -1 <= dx <= 1 && -1 <= dy <= 1 implies has_beside(
            i,
            dx,
            dy,
            width,
            height,
        ) && is_like(
            samples[#[trigger] beside(i, dx, dy, width)],
            tone::tone_of(samples[i]->0),
        ) by {
            lemma_beside_is_near(i, dx, dy, width, height, 1);
        }
    }
    if is_core(samples, width, height, i) {
        let t = tone::tone_of(samples[i]->0);
        assert(is_like(samples[beside(i, -1, -1, width)], t));
        assert(is_like(samples[beside(i, 1, 1, width)], t));
        assert forall|j: int| #[trigger] palette::is_near(i, j, width, height, 1) implies (
        samples[j] matches Some(other) && tone::is_close(
            tone::tone_of(other),
            tone::tone_of(samples[i]->0),
        )) by {
            lemma_near_is_beside(i, j, width, height, 1);
        }
    }
}

/// Reaching a tone is having a sample like it within reach.
proof fn lemma_reach(samples: Seq<Option<Pixel>>, width: int, height: int, i: int, t: int)
    requires
        0 < width,
        0 < height,
        samples.len() == width * height,
    ensures
        palette::reaches_tone(samples, width, height, i, t) <==> is_within_reach(
            samples,
            width,
            height,
            i,
            t,
        ),
{
    if palette::reaches_tone(samples, width, height, i, t) {
        let j = choose|j: int| #[trigger]
            palette::is_near(i, j, width, height, 2) && (samples[j] matches Some(other)
                && tone::is_close(tone::tone_of(other), t));
        lemma_near_is_beside(i, j, width, height, 2);
        let (dx, dy) = (j % width - i % width, j / width - i / width);
        assert(is_like(samples[beside(i, dx, dy, width)], t));
    }
    if is_within_reach(samples, width, height, i, t) {
        let (dx, dy) = choose|dx: int, dy: int|
            -2 <= dx <= 2 && -2 <= dy <= 2 && has_beside(i, dx, dy, width, height) && is_like(
                samples[#[trigger] beside(i, dx, dy, width)],
                t,
            );
        lemma_beside_is_near(i, dx, dy, width, height, 2);
    }
}

/// Reaching a gap is being by one.
proof fn lemma_gap(samples: Seq<Option<Pixel>>, width: int, height: int, i: int)
    requires
        0 < width,
        0 < height,
        samples.len() == width * height,
        0 <= i < samples.len(),
    ensures
        palette::reaches_gap(samples, width, height, i) <==> is_by_a_gap(
            samples,
            width,
            height,
            i,
        ),
{
    raster::lemma_position(i, width, height);
    let (x, y) = (i % width, i / width);
    if palette::is_at_border(width, height, i) {
        let dx = if x < 2 {
            -2int
        } else if width - 1 - x < 2 {
            2
        } else {
            0
        };
        let dy = if y < 2 {
            -2int
        } else {
            2
        };
        assert(!has_beside(i, dx, dy, width, height) || samples[beside(i, dx, dy, width)] is None);
    } else if palette::reaches_gap(samples, width, height, i) {
        let j = choose|j: int| #[trigger]
            palette::is_near(i, j, width, height, 2) && samples[j] is None;
        lemma_near_is_beside(i, j, width, height, 2);
        let (dx, dy) = (j % width - x, j / width - y);
        assert(samples[beside(i, dx, dy, width)] is None);
    }
    if is_by_a_gap(samples, width, height, i) && !palette::is_at_border(width, height, i) {
        let (dx, dy) = choose|dx: int, dy: int|
            -2 <= dx <= 2 && -2 <= dy <= 2 && (!has_beside(i, dx, dy, width, height)
                || samples[#[trigger] beside(i, dx, dy, width)] is None);
        assert(has_beside(i, dx, dy, width, height));
        lemma_beside_is_near(i, dx, dy, width, height, 2);
    }
}

/// The samples that two inks explain are those that they account for.
pub proof fn law_explained_samples_are_accounted_for(
    samples: Seq<Option<Pixel>>,
    width: int,
    height: int,
    low: int,
    high: int,
    i: int,
)
    requires
        0 < width,
        0 < height,
        samples.len() == width * height,
        0 <= i < samples.len(),
        samples[i] is Some,
    ensures
        palette::is_supported(samples, width, height, low, high, i) <==> is_accounted_for(
            samples,
            width,
            height,
            low,
            high,
            i,
        ),
{
    lemma_reach(samples, width, height, i, low);
    lemma_reach(samples, width, height, i, high);
    lemma_gap(samples, width, height, i);
}

/// `low` and `high` are the darkest and the brightest tone of cores with alpha.
pub open spec fn are_core_tones(
    samples: Seq<Option<Pixel>>,
    width: int,
    height: int,
    low: int,
    high: int,
) -> bool {
    &&& has_core(samples, width, height, low)
    &&& has_core(samples, width, height, high)
    &&& forall|t: int| #[trigger] has_core(samples, width, height, t) ==> low <= t <= high
}

/// The tones of solid areas are those of cores.
proof fn lemma_core_tones(samples: Seq<Option<Pixel>>, width: int, height: int)
    requires
        0 < width,
        0 < height,
        samples.len() == width * height,
    ensures
        forall|t: int|
            tone::has_tone(palette::solid_only(samples, width, height), t) <==> #[trigger] has_core(
                samples,
                width,
                height,
                t,
            ),
{
    let solid = palette::solid_only(samples, width, height);
    assert forall|t: int| tone::has_tone(solid, t) <==> #[trigger] has_core(
        samples,
        width,
        height,
        t,
    ) by {
        if tone::has_tone(solid, t) {
            let i = choose|i: int|
                0 <= i < solid.len() && tone::weighs(#[trigger] solid[i]) && tone::tone_of(
                    solid[i]->0,
                ) == t;
            law_solid_places_are_cores(samples, width, height, i);
            assert(samples[i] == solid[i]);
        }
        if has_core(samples, width, height, t) {
            let i = choose|i: int|
                0 <= i < samples.len() && (#[trigger] samples[i])->0[3] > 0 && tone::tone_of(
                    samples[i]->0,
                ) == t && is_core(samples, width, height, i);
            law_solid_places_are_cores(samples, width, height, i);
            assert(solid[i] == samples[i]);
        }
    }
}

/// The ends of the tones of solid areas are those of the tones of cores.
proof fn lemma_core_ends(samples: Seq<Option<Pixel>>, width: int, height: int, low: int, high: int)
    requires
        0 < width,
        0 < height,
        samples.len() == width * height,
    ensures
        are_core_tones(samples, width, height, low, high) <==> tone::lowest_tone(
            palette::solid_only(samples, width, height),
        ) == Some(low) && tone::highest_tone(palette::solid_only(samples, width, height)) == Some(
            high,
        ),
{
    let solid = palette::solid_only(samples, width, height);
    lemma_core_tones(samples, width, height);
    tone::lemma_lowest_tone(solid);
    tone::lemma_highest_tone(solid);
    assert forall|i: int| 0 <= i < solid.len() && tone::weighs(#[trigger] solid[i]) implies has_core(
        samples,
        width,
        height,
        tone::tone_of(solid[i]->0),
    ) by {
        assert(tone::has_tone(solid, tone::tone_of(solid[i]->0)));
    }
    if are_core_tones(samples, width, height, low, high) {
        assert(tone::has_tone(solid, low) && tone::has_tone(solid, high));
        let least = tone::lowest_tone(solid)->0;
        let most = tone::highest_tone(solid)->0;
        assert(has_core(samples, width, height, least) && has_core(samples, width, height, most));
    }
}

/// An icon has a palette exactly where its cores have tones, the cores like the darkest or the
/// brightest of them hold ninety-eight percent of the alpha of all cores, and the samples that
/// these two account for hold ninety-eight percent of the alpha of all samples. It is of one
/// tone exactly where the two are no more than twenty-four steps apart. Otherwise it has just
/// these two tones, and the brighter one is the primary one exactly where the samples like it
/// hold no less alpha than those like the darker one.
pub proof fn law_palettes_account_for_icons(
    samples: Seq<Option<Pixel>>,
    width: int,
    height: int,
    low: int,
    high: int,
)
    requires
        0 < width,
        0 < height,
        samples.len() == width * height,
        are_core_tones(samples, width, height, low, high),
    ensures
        palette::solid_palette(samples, width, height) is Some <==> {
            &&& 100 * sums::alpha_where(
                samples,
                |i: int|
                    is_core(samples, width, height, i) && (is_like(samples[i], low) || is_like(
                        samples[i],
                        high,
                    )),
            ) >= 98 * sums::alpha_where(samples, |i: int| is_core(samples, width, height, i))
            &&& 100 * sums::alpha_where(
                samples,
                |i: int| is_accounted_for(samples, width, height, low, high, i),
            ) >= 98 * sums::alpha_of(samples)
        },
        palette::solid_palette(samples, width, height) matches Some(verdict) ==> {
            &&& high - low <= 24 ==> verdict == Verdict::Monotone
            &&& high - low > 24 ==> verdict == (Verdict::Duotone {
                low,
                high,
                high_is_primary: sums::alpha_where(samples, |i: int| is_like(samples[i], high))
                    >= sums::alpha_where(samples, |i: int| is_like(samples[i], low)),
            })
        },
{
    let solid = palette::solid_only(samples, width, height);
    let supported = palette::supported_only(samples, width, height, low, high);
    let core = |i: int| is_core(samples, width, height, i);
    let inked_core = |i: int|
        is_core(samples, width, height, i) && (is_like(samples[i], low) || is_like(
            samples[i],
            high,
        ));
    let accounted = |i: int| is_accounted_for(samples, width, height, low, high, i);
    let like_low = |i: int| is_like(samples[i], low);
    let like_high = |i: int| is_like(samples[i], high);
    lemma_core_ends(samples, width, height, low, high);
    assert forall|i: int| 0 <= i < samples.len() implies #[trigger] solid[i] == if core(i) {
        samples[i]
    } else {
        None
    } by {
        law_solid_places_are_cores(samples, width, height, i);
    }
    sums::lemma_mass_of_kept(samples, solid, core);
    let inked = palette::inked_only(solid, low, high);
    assert forall|i: int| 0 <= i < samples.len() implies #[trigger] inked[i] == if inked_core(i) {
        samples[i]
    } else {
        None
    } by {
        law_solid_places_are_cores(samples, width, height, i);
        assert(solid[i] == if core(i) {
            samples[i]
        } else {
            None
        });
    }
    sums::lemma_mass_of_kept(samples, inked, inked_core);
    assert forall|i: int| 0 <= i < samples.len() implies #[trigger] supported[i] == if accounted(
        i,
    ) {
        samples[i]
    } else {
        None
    } by {
        if samples[i] is Some {
            law_explained_samples_are_accounted_for(samples, width, height, low, high, i);
        }
    }
    sums::lemma_mass_of_kept(samples, supported, accounted);
    greys::law_all_tones_hold_all_alpha(samples);
    sums::lemma_mass_where(samples, low - 12, low + 12, like_low);
    sums::lemma_mass_where(samples, high - 12, high + 12, like_high);
}

/// An icon without a core that has alpha has no palette.
pub proof fn law_no_palette_without_a_core(samples: Seq<Option<Pixel>>, width: int, height: int)
    requires
        0 <= width,
        0 <= height,
        samples.len() == width * height,
        forall|i: int|
            0 <= i < samples.len() && is_core(samples, width, height, i) ==> (#[trigger] samples[i])->0[3]
                == 0,
    ensures
        palette::solid_palette(samples, width, height) is None,
{
    let solid = palette::solid_only(samples, width, height);
    tone::lemma_lowest_tone(solid);
    assert forall|i: int| 0 <= i < solid.len() implies !tone::weighs(#[trigger] solid[i]) by {
        raster::lemma_sides(width, height);
        law_solid_places_are_cores(samples, width, height, i);
        assert(samples[i] is None || samples[i] is Some);
    }
}

/// A palette has cores, with a darkest and a brightest tone among them.
proof fn lemma_palette_has_cores(samples: Seq<Option<Pixel>>, width: int, height: int) -> (ends: (
    int,
    int,
))
    requires
        0 <= width,
        0 <= height,
        samples.len() == width * height,
        palette::solid_palette(samples, width, height) is Some,
    ensures
        0 < width,
        0 < height,
        are_core_tones(samples, width, height, ends.0, ends.1),
{
    let solid = palette::solid_only(samples, width, height);
    tone::lemma_lowest_tone(solid);
    raster::lemma_sides(width, height);
    let (low, high) = (tone::lowest_tone(solid)->0, tone::highest_tone(solid)->0);
    lemma_core_ends(samples, width, height, low, high);
    (low, high)
}

/// Whether the sample at place `i` is like some core with alpha, or has a sample like one within
/// two columns and two rows.
pub open spec fn is_close_to_a_core(
    samples: Seq<Option<Pixel>>,
    width: int,
    height: int,
    i: int,
) -> bool {
    exists|t: int| #[trigger]
        has_core(samples, width, height, t) && (is_like(samples[i], t) || is_within_reach(
            samples,
            width,
            height,
            i,
            t,
        ))
}

/// Where an icon has a palette, samples that are like a core, or close to a sample that is, hold
/// ninety-eight percent of its alpha.
pub proof fn law_palettes_reach_their_samples(
    samples: Seq<Option<Pixel>>,
    width: int,
    height: int,
)
    requires
        0 <= width,
        0 <= height,
        samples.len() == width * height,
        palette::solid_palette(samples, width, height) is Some,
    ensures
        100 * sums::alpha_where(samples, |i: int| is_close_to_a_core(samples, width, height, i))
            >= 98 * sums::alpha_of(samples),
{
    let (low, high) = lemma_palette_has_cores(samples, width, height);
    law_palettes_account_for_icons(samples, width, height, low, high);
    let accounted = |i: int| is_accounted_for(samples, width, height, low, high, i);
    let close = |i: int| is_close_to_a_core(samples, width, height, i);
    assert(has_core(samples, width, height, low) && has_core(samples, width, height, high));
    sums::lemma_alpha_within(samples, accounted, close);
}

/// An icon with more than two percent of its alpha on samples that are neither like a core nor
/// within two columns and two rows of a sample that is, has no palette.
pub proof fn law_far_samples_leave_no_palette(
    samples: Seq<Option<Pixel>>,
    width: int,
    height: int,
)
    requires
        0 <= width,
        0 <= height,
        samples.len() == width * height,
        100 * sums::alpha_where(samples, |i: int| !is_close_to_a_core(samples, width, height, i))
            > 2 * sums::alpha_of(samples),
    ensures
        palette::solid_palette(samples, width, height) is None,
{
    if palette::solid_palette(samples, width, height) is Some {
        law_palettes_reach_their_samples(samples, width, height);
        sums::lemma_alpha_apart(
            samples,
            |i: int| is_close_to_a_core(samples, width, height, i),
            |i: int| !is_close_to_a_core(samples, width, height, i),
            |i: int| true,
        );
    }
}

/// Where a palette has two tones, both are tones of cores and no core is darker or brighter, and
/// samples that are like one of them, or within two columns and two rows of both, hold
/// ninety-eight percent of the alpha of the icon.
pub proof fn law_two_tone_palettes_are_of_cores(
    samples: Seq<Option<Pixel>>,
    width: int,
    height: int,
    low: int,
    high: int,
    high_is_primary: bool,
)
    requires
        0 <= width,
        0 <= height,
        samples.len() == width * height,
        palette::solid_palette(samples, width, height) == Some(
            Verdict::Duotone { low, high, high_is_primary },
        ),
    ensures
        are_core_tones(samples, width, height, low, high),
        high - low > 24,
        100 * sums::alpha_where(
            samples,
            |i: int|
                is_like(samples[i], low) || is_like(samples[i], high) || (is_within_reach(
                    samples,
                    width,
                    height,
                    i,
                    low,
                ) && is_within_reach(samples, width, height, i, high)),
        ) >= 98 * sums::alpha_of(samples),
{
    let (a, b) = lemma_palette_has_cores(samples, width, height);
    law_palettes_account_for_icons(samples, width, height, a, b);
    sums::lemma_alpha_within(
        samples,
        |i: int| is_accounted_for(samples, width, height, low, high, i),
        |i: int|
            is_like(samples[i], low) || is_like(samples[i], high) || (is_within_reach(
                samples,
                width,
                height,
                i,
                low,
            ) && is_within_reach(samples, width, height, i, high)),
    );
}

/// A part explains a whole from ninety-eight percent on.
pub proof fn law_two_percent_may_stay_unexplained(part: nat, whole: nat)
    requires
        part <= whole,
    ensures
        palette::explains(part, whole) <==> 50 * (whole - part) <= whole,
{
}

/// The samples above, below, to the left, to the right and at the four corners of the middle of a
/// solid area are all there, no more than twelve steps from it, and such a middle is one.
pub proof fn law_solid_places_have_eight_like_them(
    samples: Seq<Option<Pixel>>,
    width: int,
    height: int,
    x: int,
    y: int,
    t: int,
)
    requires
        samples.len() == width * height,
        0 < x < width - 1,
        0 < y < height - 1,
        samples[raster::cell(x, y, width)] matches Some(pixel) && tone::tone_of(pixel) == t,
    ensures
        palette::is_solid(samples, width, height, raster::cell(x, y, width)) <==> {
            &&& is_like(samples[raster::cell(x - 1, y - 1, width)], t)
            &&& is_like(samples[raster::cell(x, y - 1, width)], t)
            &&& is_like(samples[raster::cell(x + 1, y - 1, width)], t)
            &&& is_like(samples[raster::cell(x - 1, y, width)], t)
            &&& is_like(samples[raster::cell(x + 1, y, width)], t)
            &&& is_like(samples[raster::cell(x - 1, y + 1, width)], t)
            &&& is_like(samples[raster::cell(x, y + 1, width)], t)
            &&& is_like(samples[raster::cell(x + 1, y + 1, width)], t)
        },
{
    let i = raster::cell(x, y, width);
    raster::lemma_cell(x, y, width, height);
    law_solid_places_are_cores(samples, width, height, i);
    assert forall|dx: int, dy: int| #[trigger] beside(i, dx, dy, width) == raster::cell(
        x + dx,
        y + dy,
        width,
    ) by {
        assert((y + dy) * width == y * width + dy * width) by (nonlinear_arith);
    }
    if is_core(samples, width, height, i) {
        assert(is_like(samples[beside(i, -1, -1, width)], t));
        assert(is_like(samples[beside(i, 0, -1, width)], t));
        assert(is_like(samples[beside(i, 1, -1, width)], t));
        assert(is_like(samples[beside(i, -1, 0, width)], t));
        assert(is_like(samples[beside(i, 1, 0, width)], t));
        assert(is_like(samples[beside(i, -1, 1, width)], t));
        assert(is_like(samples[beside(i, 0, 1, width)], t));
        assert(is_like(samples[beside(i, 1, 1, width)], t));
    }
}

/// No place at the edge of the grid is the middle of a solid area.
pub proof fn law_places_at_the_edge_are_not_solid(
    samples: Seq<Option<Pixel>>,
    width: int,
    height: int,
    x: int,
    y: int,
)
    requires
        samples.len() == width * height,
        0 <= x < width,
        0 <= y < height,
        x == 0 || y == 0 || x == width - 1 || y == height - 1,
    ensures
        !palette::is_solid(samples, width, height, raster::cell(x, y, width)),
{
    raster::lemma_cell(x, y, width, height);
}

} // verus!

//! Palettes of antialiased icons: the tones of solid areas, and edges that blend them.

use vstd::prelude::*;

use crate::decision::{PaintDecision, Verdict};
use crate::raster;
use crate::raster::Pixel;
use crate::tone;
use crate::tone::Histogram;

verus! {

/// The largest distance between the darkest and the brightest tone of a one-tone icon.
pub const MAX_MONOTONE_SPAN: u8 = 24;

/// The share of the mass, in percent, that the tones of a palette have to explain.
pub const MIN_DUOTONE_PERCENT: u64 = 98;

/// How far an antialiased edge reaches.
pub const ANTIALIAS_RADIUS: usize = 2;

/// Whether position `j` lies in the grid, no more than `radius` columns and `radius` rows
/// away from position `i`.
pub open spec fn is_near(i: int, j: int, width: int, height: int, radius: int) -> bool {
    &&& 0 <= j < width * height
    &&& -radius <= j % width - i % width <= radius
    &&& -radius <= j / width - i / width <= radius
}

/// Whether a tone is close to one of two inks.
pub open spec fn matches_ink(t: int, low: int, high: int) -> bool {
    tone::is_close(t, low) || tone::is_close(t, high)
}

/// A sample, where its tone is close to one of two inks.
pub open spec fn inked(sample: Option<Pixel>, low: int, high: int) -> Option<Pixel> {
    match sample {
        Some(pixel) => if matches_ink(tone::tone_of(pixel), low, high) {
            Some(pixel)
        } else {
            None
        },
        None => None,
    }
}

/// The samples whose tone is close to one of two inks.
pub open spec fn inked_only(samples: Seq<Option<Pixel>>, low: int, high: int) -> Seq<
    Option<Pixel>,
> {
    Seq::new(samples.len(), |i: int| inked(samples[i], low, high))
}

/// Whether the sample at position `i` is the middle of a solid area: it is not at the edge
/// of the grid, and all around it are samples of the same tone.
pub open spec fn is_solid(
    samples: Seq<Option<Pixel>>,
    width: int,
    height: int,
    i: int,
) -> bool {
    &&& 1 <= i % width <= width - 2
    &&& 1 <= i / width <= height - 2
    &&& samples[i] matches Some(pixel) && forall|j: int| #[trigger]
        is_near(i, j, width, height, 1) ==> (samples[j] matches Some(other) && tone::is_close(
            tone::tone_of(other),
            tone::tone_of(pixel),
        ))
}

/// The samples in the middle of solid areas.
pub open spec fn solid_only(samples: Seq<Option<Pixel>>, width: int, height: int) -> Seq<
    Option<Pixel>,
> {
    Seq::new(
        samples.len(),
        |i: int|
            if is_solid(samples, width, height, i) {
                samples[i]
            } else {
                None
            },
    )
}

/// Whether an antialiased edge at position `i` can reach a sample of the tone `t`.
pub open spec fn reaches_tone(
    samples: Seq<Option<Pixel>>,
    width: int,
    height: int,
    i: int,
    t: int,
) -> bool {
    exists|j: int| #[trigger]
        is_near(i, j, width, height, ANTIALIAS_RADIUS as int) && (samples[j] matches Some(other)
            && tone::is_close(tone::tone_of(other), t))
}

/// Whether position `i` is close to the edge of the grid.
pub open spec fn is_at_border(width: int, height: int, i: int) -> bool {
    ||| i % width < ANTIALIAS_RADIUS
    ||| i / width < ANTIALIAS_RADIUS
    ||| width - 1 - i % width < ANTIALIAS_RADIUS
    ||| height - 1 - i / width < ANTIALIAS_RADIUS
}

/// Whether an antialiased edge at position `i` can reach a place without a sample, in the
/// grid or beyond it.
pub open spec fn reaches_gap(
    samples: Seq<Option<Pixel>>,
    width: int,
    height: int,
    i: int,
) -> bool {
    ||| is_at_border(width, height, i)
    ||| exists|j: int| #[trigger]
        is_near(i, j, width, height, ANTIALIAS_RADIUS as int) && samples[j] is None
}

/// Whether two inks explain the sample at position `i`: its tone is one of them, or an edge
/// between the two blends them there. Where the inks count as one tone, the edge is one
/// between that tone and a gap.
pub open spec fn is_supported(
    samples: Seq<Option<Pixel>>,
    width: int,
    height: int,
    low: int,
    high: int,
    i: int,
) -> bool {
    samples[i] matches Some(pixel) && {
        ||| matches_ink(tone::tone_of(pixel), low, high)
        ||| if high - low <= MAX_MONOTONE_SPAN {
            &&& reaches_gap(samples, width, height, i)
            &&& reaches_tone(samples, width, height, i, low) || reaches_tone(
                samples,
                width,
                height,
                i,
                high,
            )
        } else {
            &&& reaches_tone(samples, width, height, i, low)
            &&& reaches_tone(samples, width, height, i, high)
        }
    }
}

/// The samples that two inks explain.
pub open spec fn supported_only(
    samples: Seq<Option<Pixel>>,
    width: int,
    height: int,
    low: int,
    high: int,
) -> Seq<Option<Pixel>> {
    Seq::new(
        samples.len(),
        |i: int|
            if is_supported(samples, width, height, low, high, i) {
                samples[i]
            } else {
                None
            },
    )
}

/// Whether `part` is a large enough share of `whole`.
pub open spec fn explains(part: nat, whole: nat) -> bool {
    part * 100 >= whole * MIN_DUOTONE_PERCENT
}

/// The palette of the solid areas, where it explains the solid areas and all samples.
pub open spec fn solid_palette(
    samples: Seq<Option<Pixel>>,
    width: int,
    height: int,
) -> Option<Verdict> {
    let solid = solid_only(samples, width, height);
    match (tone::lowest_tone(solid), tone::highest_tone(solid)) {
        (Some(low), Some(high)) => {
            let supported = supported_only(samples, width, height, low, high);
            if !explains(
                tone::mass(inked_only(solid, low, high), 0, 255),
                tone::mass(solid, 0, 255),
            ) || !explains(tone::mass(supported, 0, 255), tone::mass(samples, 0, 255)) {
                None
            } else if high - low <= MAX_MONOTONE_SPAN {
                Some(Verdict::Monotone)
            } else {
                Some(
                    Verdict::Duotone {
                        low,
                        high,
                        high_is_primary: tone::mass(
                            samples,
                            high - tone::TONE_TOLERANCE,
                            high + tone::TONE_TOLERANCE,
                        ) >= tone::mass(
                            samples,
                            low - tone::TONE_TOLERANCE,
                            low + tone::TONE_TOLERANCE,
                        ),
                    },
                )
            }
        },
        _ => None,
    }
}

/// The positions in the grid no more than `radius` columns and `radius` rows away from
/// `index`, row by row.
pub fn neighbourhood(index: usize, width: usize, height: usize, radius: usize) -> (near: Vec<
    usize,
>)
    requires
        0 < width,
        0 < height,
        width * height <= usize::MAX,
    ensures
        forall|a: int, b: int| 0 <= a < b < near@.len() ==> near@[a] < near@[b],
        forall|j: usize| #[trigger]
            near@.contains(j) <==> is_near(
                index as int,
                j as int,
                width as int,
                height as int,
                radius as int,
            ),
{
    let ghost (w, h): (int, int) = (width as int, height as int);
    let x: usize = index % width;
    let y: usize = index / width;
    let left: usize = x.saturating_sub(radius);
    let right: usize = if x.saturating_add(radius) < width {
        x.saturating_add(radius)
    } else {
        width - 1
    };
    let top: usize = y.saturating_sub(radius);
    let bottom: usize = if y.saturating_add(radius) < height {
        y.saturating_add(radius)
    } else {
        height - 1
    };
    let mut near: Vec<usize> = Vec::new();
    let mut row: usize = top;
    while row <= bottom
        invariant
            w == width,
            h == height,
            0 < w,
            0 < h,
            w * h <= usize::MAX,
            x == index % width,
            y == index / width,
            left <= x <= right < w,
            bottom < h,
            top <= row,
            row <= vstd::math::max(top as int, bottom + 1),
            left == vstd::math::max(x - radius, 0),
            right == vstd::math::min(x + radius, w - 1),
            top == vstd::math::max(y - radius, 0),
            bottom == vstd::math::min(y + radius, h - 1),
            forall|a: int, b: int| 0 <= a < b < near@.len() ==> near@[a] < near@[b],
            forall|a: int| 0 <= a < near@.len() ==> #[trigger] near@[a] < row * w,
            forall|j: usize| #[trigger]
                near@.contains(j) <==> is_near(index as int, j as int, w, h, radius as int)
                    && j as int / w < row,
        decreases bottom + 1 - row,
    {
        proof {
            raster::lemma_cell(0, row as int, w, h);
            assert((row + 1) * w == row * w + w) by (nonlinear_arith);
        }
        let mut column: usize = left;
        while column <= right
            invariant
                w == width,
                h == height,
                0 < w,
                0 < h,
                w * h <= usize::MAX,
                x == index % width,
                y == index / width,
                left <= x <= right < w,
                top <= row <= bottom < h,
                left <= column <= right + 1,
                left == vstd::math::max(x - radius, 0),
                right == vstd::math::min(x + radius, w - 1),
                top == vstd::math::max(y - radius, 0),
                bottom == vstd::math::min(y + radius, h - 1),
                forall|a: int, b: int| 0 <= a < b < near@.len() ==> near@[a] < near@[b],
                forall|a: int| 0 <= a < near@.len() ==> #[trigger] near@[a] < row * w + column,
                forall|j: usize| #[trigger]
                    near@.contains(j) <==> is_near(index as int, j as int, w, h, radius as int) && (
                    j as int / w < row || (j as int / w == row && j as int % w < column)),
            decreases right + 1 - column,
        {
            proof {
                raster::lemma_cell(column as int, row as int, w, h);
            }
            let position: usize = row * width + column;
            let ghost before = near@;
            near.push(position);
            proof {
                assert forall|j: usize| #[trigger]
                    near@.contains(j) <==> is_near(index as int, j as int, w, h, radius as int) && (
                    j as int / w < row || (j as int / w == row && j as int % w < column + 1)) by {
                    assert(near@.contains(j) <==> before.contains(j) || j == position) by {
                        assert(near@[near@.len() - 1] == position);
                        if before.contains(j) {
                            let a = choose|a: int| 0 <= a < before.len() && before[a] == j;
                            assert(near@[a] == j);
                        }
                        if near@.contains(j) && j != position {
                            let a = choose|a: int| 0 <= a < near@.len() && near@[a] == j;
                            assert(before[a] == j);
                        }
                    }
                    if 0 <= j < w * h {
                        raster::lemma_position(j as int, w, h);
                    }
                }
            }
            column += 1;
        }
        proof {
            assert forall|j: usize| #[trigger]
                near@.contains(j) <==> is_near(index as int, j as int, w, h, radius as int)
                    && j as int / w < row + 1 by {
                if 0 <= j < w * h {
                    raster::lemma_position(j as int, w, h);
                }
            }
        }
        row += 1;
    }
    proof {
        assert forall|j: usize| #[trigger]
            near@.contains(j) <==> is_near(index as int, j as int, w, h, radius as int) by {
            if 0 <= j < w * h {
                raster::lemma_position(j as int, w, h);
            }
        }
    }
    near
}

/// Whether the sample at `index` is the middle of a solid area.
fn solid(samples: &[Option<Pixel>], width: usize, height: usize, index: usize) -> (found: bool)
    requires
        index < samples@.len() == width * height <= usize::MAX,
    ensures
        found == is_solid(samples@, width as int, height as int, index as int),
{
    let ghost (w, h): (int, int) = (width as int, height as int);
    proof {
        raster::lemma_sides(w, h);
        raster::lemma_position(index as int, w, h);
    }
    let x: usize = index % width;
    let y: usize = index / width;
    if x < 1 || x + 1 >= width || y < 1 || y + 1 >= height {
        return false;
    }
    let pixel: Pixel = match samples[index] {
        Some(pixel) => pixel,
        None => return false,
    };
    let level: u8 = tone::intensity(pixel);
    let near: Vec<usize> = neighbourhood(index, width, height, 1);
    let mut a: usize = 0;
    while a < near.len()
        invariant
            a <= near@.len(),
            samples@.len() == w * h <= usize::MAX,
            w == width,
            h == height,
            index < w * h,
            samples@[index as int] == Some(pixel),
            level == tone::tone_of(pixel),
            forall|j: usize| #[trigger]
                near@.contains(j) <==> is_near(index as int, j as int, w, h, 1),
            forall|b: int|
                0 <= b < a ==> (samples@[#[trigger] near@[b] as int] matches Some(other)
                    && tone::is_close(tone::tone_of(other), tone::tone_of(pixel))),
        decreases near@.len() - a,
    {
        assert(near@.contains(near@[a as int]));
        match samples[near[a]] {
            Some(other) => if !tone::close(tone::intensity(other), level) {
                assert(is_near(index as int, near@[a as int] as int, w, h, 1));
                return false;
            },
            None => {
                assert(is_near(index as int, near@[a as int] as int, w, h, 1));
                return false;
            },
        }
        a += 1;
    }
    proof {
        assert forall|j: int| #[trigger] is_near(index as int, j, w, h, 1) implies (
        samples@[j] matches Some(other) && tone::is_close(
            tone::tone_of(other),
            tone::tone_of(pixel),
        )) by {
            assert(near@.contains(j as usize));
            let b = choose|b: int| 0 <= b < near@.len() && near@[b] == j as usize;
            assert(near@[b] == j);
        }
    }
    true
}

/// Whether an edge between the inks, or between the one tone they are and a gap, can blend
/// at `index`.
fn blends(
    samples: &[Option<Pixel>],
    width: usize,
    height: usize,
    low: u8,
    high: u8,
    index: usize,
) -> (found: bool)
    requires
        index < samples@.len() == width * height <= usize::MAX,
        low <= high,
    ensures
        found == if high - low <= MAX_MONOTONE_SPAN {
            &&& reaches_gap(samples@, width as int, height as int, index as int)
            &&& reaches_tone(samples@, width as int, height as int, index as int, low as int)
                || reaches_tone(samples@, width as int, height as int, index as int, high as int)
        } else {
            &&& reaches_tone(samples@, width as int, height as int, index as int, low as int)
            &&& reaches_tone(samples@, width as int, height as int, index as int, high as int)
        },
{
    let ghost (w, h, i): (int, int, int) = (width as int, height as int, index as int);
    proof {
        raster::lemma_sides(w, h);
        raster::lemma_position(i, w, h);
    }
    let x: usize = index % width;
    let y: usize = index / width;
    let mut gap: bool = x < ANTIALIAS_RADIUS || y < ANTIALIAS_RADIUS || width - 1 - x
        < ANTIALIAS_RADIUS || height - 1 - y < ANTIALIAS_RADIUS;
    let mut near_low: bool = false;
    let mut near_high: bool = false;
    let near: Vec<usize> = neighbourhood(index, width, height, ANTIALIAS_RADIUS);
    let mut a: usize = 0;
    while a < near.len()
        invariant
            a <= near@.len(),
            samples@.len() == w * h <= usize::MAX,
            w == width,
            h == height,
            i == index,
            i < w * h,
            forall|j: usize| #[trigger]
                near@.contains(j) <==> is_near(i, j as int, w, h, ANTIALIAS_RADIUS as int),
            gap <==> is_at_border(w, h, i) || exists|b: int|
                0 <= b < a && samples@[#[trigger] near@[b] as int] is None,
            near_low <==> exists|b: int|
                0 <= b < a && (samples@[#[trigger] near@[b] as int] matches Some(other)
                    && tone::is_close(tone::tone_of(other), low as int)),
            near_high <==> exists|b: int|
                0 <= b < a && (samples@[#[trigger] near@[b] as int] matches Some(other)
                    && tone::is_close(tone::tone_of(other), high as int)),
        decreases near@.len() - a,
    {
        assert(near@.contains(near@[a as int]));
        match samples[near[a]] {
            Some(other) => {
                let level: u8 = tone::intensity(other);
                near_low = near_low || tone::close(level, low);
                near_high = near_high || tone::close(level, high);
            },
            None => {
                gap = true;
            },
        }
        a += 1;
    }
    proof {
        let r = ANTIALIAS_RADIUS as int;
        assert forall|b: int| 0 <= b < near@.len() implies is_near(
            i,
            #[trigger] near@[b] as int,
            w,
            h,
            r,
        ) by {
            assert(near@.contains(near@[b]));
        }
        assert forall|j: int| #[trigger] is_near(i, j, w, h, r) implies exists|b: int|
            0 <= b < near@.len() && #[trigger] near@[b] == j by {
            assert(near@.contains(j as usize));
            let b = choose|b: int| 0 <= b < near@.len() && near@[b] == j as usize;
            assert(near@[b] == j);
        }
    }
    if high - low <= MAX_MONOTONE_SPAN {
        gap && (near_low || near_high)
    } else {
        near_low && near_high
    }
}

/// The histogram of the samples in the middle of solid areas.
fn solid_histogram(samples: &[Option<Pixel>], width: usize, height: usize) -> (histogram: Histogram)
    requires
        samples@.len() == width * height <= usize::MAX,
    ensures
        histogram@ == tone::histogram_of(solid_only(samples@, width as int, height as int)),
{
    let ghost solid_samples = solid_only(samples@, width as int, height as int);
    let mut histogram: Histogram = Histogram::new();
    let mut index: usize = 0;
    proof {
        assert(solid_samples.take(0) =~= Seq::empty());
    }
    while index < samples.len()
        invariant
            index <= samples@.len(),
            samples@.len() == width * height <= usize::MAX,
            solid_samples == solid_only(samples@, width as int, height as int),
            histogram@ == tone::histogram_of(solid_samples.take(index as int)),
        decreases samples@.len() - index,
    {
        proof {
            tone::lemma_histogram_step(solid_samples, index as int);
        }
        if solid(samples, width, height, index) {
            if let Some(pixel) = samples[index] {
                histogram.add(pixel);
            }
        }
        index += 1;
    }
    proof {
        assert(solid_samples.take(index as int) =~= solid_samples);
    }
    histogram
}

/// The sum of the first `n` entries that belong to tones close to one of two inks.
spec fn inked_sum(entries: Seq<nat>, low: int, high: int, n: int) -> nat
    decreases n,
{
    if n <= 0 {
        0
    } else {
        inked_sum(entries, low, high, n - 1) + if matches_ink(n - 1, low, high) {
            entries[n - 1]
        } else {
            0
        }
    }
}

/// Of one tone, the samples close to an ink hold all mass or none.
proof fn lemma_inked_tone(samples: Seq<Option<Pixel>>, low: int, high: int, t: int)
    ensures
        tone::mass(inked_only(samples, low, high), t, t) == if matches_ink(t, low, high) {
            tone::mass(samples, t, t)
        } else {
            0
        },
    decreases samples.len(),
{
    if samples.len() > 0 {
        lemma_inked_tone(samples.drop_last(), low, high, t);
        assert(inked_only(samples, low, high).drop_last() =~= inked_only(
            samples.drop_last(),
            low,
            high,
        ));
    }
}

/// The entries of a histogram that belong to tones close to an ink add up to the mass of
/// the samples close to an ink.
proof fn lemma_inked_sum(samples: Seq<Option<Pixel>>, low: int, high: int, n: int)
    requires
        0 <= n <= 256,
    ensures
        inked_sum(tone::histogram_of(samples), low, high, n) == tone::mass(
            inked_only(samples, low, high),
            0,
            n - 1,
        ),
    decreases n,
{
    let inked_samples = inked_only(samples, low, high);
    if n == 0 {
        tone::lemma_mass_of_empty_range(inked_samples, 0, -1);
    } else {
        lemma_inked_sum(samples, low, high, n - 1);
        lemma_inked_tone(samples, low, high, n - 1);
        tone::lemma_mass_split(inked_samples, 0, n - 1, n - 1);
    }
}

/// The mass that a histogram holds of tones close to one of two inks.
fn inked_mass(
    histogram: &Histogram,
    low: u8,
    high: u8,
    Ghost(samples): Ghost<Seq<Option<Pixel>>>,
) -> (sum: u128)
    requires
        histogram@ == tone::histogram_of(samples),
        samples.len() <= usize::MAX,
    ensures
        sum == tone::mass(inked_only(samples, low as int, high as int), 0, 255),
{
    let mut sum: u128 = 0;
    let mut t: usize = 0;
    while t < 256
        invariant
            t <= 256,
            histogram@ == tone::histogram_of(samples),
            samples.len() <= usize::MAX,
            sum == inked_sum(histogram@, low as int, high as int, t as int),
        decreases 256 - t,
    {
        proof {
            lemma_inked_sum(samples, low as int, high as int, t + 1);
            tone::lemma_mass_bound(inked_only(samples, low as int, high as int), 0, t as int);
        }
        if tone::close(t as u8, low) || tone::close(t as u8, high) {
            sum += histogram.at(t as u8);
        }
        t += 1;
    }
    proof {
        lemma_inked_sum(samples, low as int, high as int, 256);
    }
    sum
}

/// Whether `part` is a large enough share of `whole`.
pub fn explained(part: u128, whole: u128) -> (enough: bool)
    requires
        part * 100 <= u128::MAX,
        whole * 100 <= u128::MAX,
    ensures
        enough == explains(part as nat, whole as nat),
{
    assert(whole * MIN_DUOTONE_PERCENT <= whole * 100) by (nonlinear_arith)
        requires
            MIN_DUOTONE_PERCENT <= 100,
    ;
    part * 100 >= whole * MIN_DUOTONE_PERCENT as u128
}

/// The palette of the solid areas of an icon, where it explains the solid areas and, with
/// antialiased edges, all of the icon.
pub fn antialiased_palette(width: usize, height: usize, samples: &[Option<Pixel>]) -> (palette:
    Option<PaintDecision>)
    requires
        samples@.len() == width * height,
    ensures
        palette is Some <==> solid_palette(samples@, width as int, height as int) is Some,
        palette matches Some(decision) ==> solid_palette(samples@, width as int, height as int)
            == Some(decision@),
{
    let ghost (w, h): (int, int) = (width as int, height as int);
    let ghost solid_samples = solid_only(samples@, w, h);
    assert(samples.len() <= usize::MAX);
    let histogram: Histogram = solid_histogram(samples, width, height);
    let lowest: Option<u8> = histogram.lowest();
    let highest: Option<u8> = histogram.highest();
    proof {
        tone::lemma_histogram_ends(solid_samples, lowest, highest);
        tone::lemma_range_sum_is_mass(solid_samples, 0, 255);
        tone::lemma_mass_bound(solid_samples, 0, 255);
    }
    let (low, high): (u8, u8) = match (lowest, highest) {
        (Some(low), Some(high)) => (low, high),
        _ => return None,
    };
    let solid_total: u128 = histogram.between(0, 255);
    let solid_matched: u128 = inked_mass(&histogram, low, high, Ghost(solid_samples));
    proof {
        tone::lemma_mass_bound(inked_only(solid_samples, low as int, high as int), 0, 255);
    }
    if !explained(solid_matched, solid_total) {
        return None;
    }
    let ghost supported = supported_only(samples@, w, h, low as int, high as int);
    let ghost tolerance = tone::TONE_TOLERANCE as int;
    let mut total: u128 = 0;
    let mut matched: u128 = 0;
    let mut low_mass: u128 = 0;
    let mut high_mass: u128 = 0;
    let mut index: usize = 0;
    while index < samples.len()
        invariant
            index <= samples@.len(),
            samples@.len() == w * h <= usize::MAX,
            w == width,
            h == height,
            low <= high,
            tolerance == tone::TONE_TOLERANCE,
            supported == supported_only(samples@, w, h, low as int, high as int),
            total == tone::mass(samples@.take(index as int), 0, 255),
            matched == tone::mass(supported.take(index as int), 0, 255),
            low_mass == tone::mass(
                samples@.take(index as int),
                low - tolerance,
                low + tolerance,
            ),
            high_mass == tone::mass(
                samples@.take(index as int),
                high - tolerance,
                high + tolerance,
            ),
            total <= 255 * index,
            matched <= 255 * index,
            low_mass <= 255 * index,
            high_mass <= 255 * index,
        decreases samples@.len() - index,
    {
        proof {
            tone::lemma_mass_step(samples@, index as int, 0, 255);
            tone::lemma_mass_step(supported, index as int, 0, 255);
            tone::lemma_mass_step(samples@, index as int, low - tolerance, low + tolerance);
            tone::lemma_mass_step(samples@, index as int, high - tolerance, high + tolerance);
        }
        if let Some(pixel) = samples[index] {
            let level: u8 = tone::intensity(pixel);
            let mass: u128 = pixel[3] as u128;
            total += mass;
            if tone::close(level, low) {
                low_mass += mass;
            }
            if tone::close(level, high) {
                high_mass += mass;
            }
            if tone::close(level, low) || tone::close(level, high) || blends(
                samples,
                width,
                height,
                low,
                high,
                index,
            ) {
                matched += mass;
            }
        }
        index += 1;
    }
    proof {
        assert(samples@.take(index as int) =~= samples@);
        assert(supported.take(index as int) =~= supported);
    }
    if !explained(matched, total) {
        return None;
    }
    if high - low <= MAX_MONOTONE_SPAN {
        Some(PaintDecision::Monotone)
    } else {
        Some(PaintDecision::Duotone { low, high, high_is_primary: high_mass >= low_mass })
    }
}

} // verus!

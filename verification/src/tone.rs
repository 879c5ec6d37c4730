//! Brightness of pixels, and how much of each brightness a set of samples holds.

use vstd::prelude::*;

use crate::raster::Pixel;

verus! {

/// The least alpha at which a pixel counts as visible.
pub const MIN_ALPHA: u8 = 16;

/// The largest difference between channels at which a pixel counts as grey.
pub const MAX_NEUTRAL_CHROMA: u8 = 16;

/// How far apart two tones may lie and still count as one.
pub const TONE_TOLERANCE: u8 = 12;

/// The brightness of a pixel, from 0 to 255: a weighted mean of its channels, rounded.
pub open spec fn tone_of(pixel: Pixel) -> int {
    (pixel[0] * 54 + pixel[1] * 183 + pixel[2] * 19 + 128) / 256
}

/// The difference between the strongest and the weakest colour channel.
pub open spec fn chroma_of(pixel: Pixel) -> int {
    let (r, g, b): (int, int, int) = (pixel[0] as int, pixel[1] as int, pixel[2] as int);
    vstd::math::max(vstd::math::max(r, g), b) - vstd::math::min(vstd::math::min(r, g), b)
}

/// Whether a pixel is opaque enough to be seen.
pub open spec fn is_visible(pixel: Pixel) -> bool {
    pixel[3] >= MIN_ALPHA
}

/// Whether a pixel is too colourful to be a grey.
pub open spec fn is_coloured(pixel: Pixel) -> bool {
    chroma_of(pixel) > MAX_NEUTRAL_CHROMA
}

/// Whether two tones count as one.
pub open spec fn is_close(a: int, b: int) -> bool {
    -TONE_TOLERANCE <= a - b <= TONE_TOLERANCE
}

/// The brightness of a pixel.
pub fn intensity(pixel: Pixel) -> (level: u8)
    ensures
        level == tone_of(pixel),
{
    ((pixel[0] as u32 * 54 + pixel[1] as u32 * 183 + pixel[2] as u32 * 19 + 128) / 256) as u8
}

/// The difference between the strongest and the weakest colour channel.
pub fn chroma(pixel: Pixel) -> (difference: u8)
    ensures
        difference == chroma_of(pixel),
{
    let (r, g, b): (u8, u8, u8) = (pixel[0], pixel[1], pixel[2]);
    r.max(g).max(b) - r.min(g).min(b)
}

/// Whether two tones count as one.
pub fn close(a: u8, b: u8) -> (same: bool)
    ensures
        same == is_close(a as int, b as int),
{
    if a < b {
        b - a <= TONE_TOLERANCE
    } else {
        a - b <= TONE_TOLERANCE
    }
}

/// The alpha that one sample adds to the tones from `low` to `high`.
pub open spec fn weight(sample: Option<Pixel>, low: int, high: int) -> nat {
    match sample {
        Some(pixel) => if low <= tone_of(pixel) <= high {
            pixel[3] as nat
        } else {
            0
        },
        None => 0,
    }
}

/// The alpha of all samples whose tone lies between `low` and `high`, both included.
pub open spec fn mass(samples: Seq<Option<Pixel>>, low: int, high: int) -> nat
    decreases samples.len(),
{
    if samples.len() == 0 {
        0
    } else {
        mass(samples.drop_last(), low, high) + weight(samples.last(), low, high)
    }
}

/// Whether a sample has any alpha.
pub open spec fn weighs(sample: Option<Pixel>) -> bool {
    sample matches Some(pixel) && pixel[3] > 0
}

/// The darkest tone among the samples that have any alpha.
pub open spec fn lowest_tone(samples: Seq<Option<Pixel>>) -> Option<int>
    decreases samples.len(),
{
    if samples.len() == 0 {
        None
    } else {
        let rest = lowest_tone(samples.drop_last());
        if !weighs(samples.last()) {
            rest
        } else {
            let last = tone_of(samples.last()->0);
            match rest {
                Some(least) => Some(vstd::math::min(least, last)),
                None => Some(last),
            }
        }
    }
}

/// The brightest tone among the samples that have any alpha.
pub open spec fn highest_tone(samples: Seq<Option<Pixel>>) -> Option<int>
    decreases samples.len(),
{
    if samples.len() == 0 {
        None
    } else {
        let rest = highest_tone(samples.drop_last());
        if !weighs(samples.last()) {
            rest
        } else {
            let last = tone_of(samples.last()->0);
            match rest {
                Some(most) => Some(vstd::math::max(most, last)),
                None => Some(last),
            }
        }
    }
}

/// Whether some sample with any alpha has the tone `t`.
pub open spec fn has_tone(samples: Seq<Option<Pixel>>, t: int) -> bool {
    exists|i: int|
        0 <= i < samples.len() && weighs(#[trigger] samples[i]) && tone_of(samples[i]->0) == t
}

/// The darkest tone is a tone of some sample, and no sample is darker.
pub proof fn lemma_lowest_tone(samples: Seq<Option<Pixel>>)
    ensures
        lowest_tone(samples) is None <==> forall|i: int|
            0 <= i < samples.len() ==> !weighs(#[trigger] samples[i]),
        lowest_tone(samples) matches Some(t) ==> has_tone(samples, t) && forall|i: int|
            0 <= i < samples.len() && weighs(#[trigger] samples[i]) ==> t <= tone_of(samples[i]->0),
    decreases samples.len(),
{
    if samples.len() > 0 {
        let rest = samples.drop_last();
        lemma_lowest_tone(rest);
        let last = samples.len() - 1;
        assert forall|i: int| 0 <= i < samples.len() implies samples[i] == (if i < last {
            rest[i]
        } else {
            samples.last()
        }) by {}
        if let Some(t) = lowest_tone(rest) {
            let i = choose|i: int|
                0 <= i < rest.len() && weighs(#[trigger] rest[i]) && tone_of(rest[i]->0) == t;
            assert(samples[i] == rest[i]);
        }
        assert(samples[last] == samples.last());
        assert forall|i: int| 0 <= i < rest.len() implies rest[i] == samples[i] by {}
    }
}

/// The brightest tone is a tone of some sample, and no sample is brighter.
pub proof fn lemma_highest_tone(samples: Seq<Option<Pixel>>)
    ensures
        highest_tone(samples) is None <==> forall|i: int|
            0 <= i < samples.len() ==> !weighs(#[trigger] samples[i]),
        highest_tone(samples) matches Some(t) ==> has_tone(samples, t) && forall|i: int|
            0 <= i < samples.len() && weighs(#[trigger] samples[i]) ==> tone_of(samples[i]->0) <= t,
    decreases samples.len(),
{
    if samples.len() > 0 {
        let rest = samples.drop_last();
        lemma_highest_tone(rest);
        let last = samples.len() - 1;
        assert forall|i: int| 0 <= i < samples.len() implies samples[i] == (if i < last {
            rest[i]
        } else {
            samples.last()
        }) by {}
        if let Some(t) = highest_tone(rest) {
            let i = choose|i: int|
                0 <= i < rest.len() && weighs(#[trigger] rest[i]) && tone_of(rest[i]->0) == t;
            assert(samples[i] == rest[i]);
        }
        assert(samples[last] == samples.last());
        assert forall|i: int| 0 <= i < rest.len() implies rest[i] == samples[i] by {}
    }
}

/// A range of tones has mass exactly where some sample lies in it.
pub proof fn lemma_mass_presence(samples: Seq<Option<Pixel>>, low: int, high: int)
    ensures
        mass(samples, low, high) > 0 <==> exists|t: int|
            low <= t <= high && #[trigger] has_tone(samples, t),
    decreases samples.len(),
{
    if samples.len() > 0 {
        let rest = samples.drop_last();
        let last = samples.len() - 1;
        assert forall|i: int| 0 <= i < rest.len() implies rest[i] == samples[i] by {}
        lemma_mass_presence(rest, low, high);
        assert forall|t: int| #[trigger] has_tone(samples, t) <==> has_tone(rest, t) || (weighs(
            samples.last(),
        ) && tone_of(samples.last()->0) == t) by {
            if has_tone(rest, t) {
                let i = choose|i: int|
                    0 <= i < rest.len() && weighs(#[trigger] rest[i]) && tone_of(rest[i]->0) == t;
                assert(samples[i] == rest[i]);
            }
            if has_tone(samples, t) {
                let i = choose|i: int|
                    0 <= i < samples.len() && weighs(#[trigger] samples[i]) && tone_of(
                        samples[i]->0,
                    ) == t;
                if i < last {
                    assert(rest[i] == samples[i]);
                }
            }
            assert(samples[last] == samples.last());
        }
        if weighs(samples.last()) {
            assert(has_tone(samples, tone_of(samples.last()->0)));
        }
        if mass(rest, low, high) > 0 {
            let t = choose|t: int| low <= t <= high && #[trigger] has_tone(rest, t);
            assert(has_tone(samples, t));
        }
    }
}

/// No set of samples weighs more than full alpha on each of them.
pub proof fn lemma_mass_bound(samples: Seq<Option<Pixel>>, low: int, high: int)
    ensures
        mass(samples, low, high) <= 255 * samples.len(),
    decreases samples.len(),
{
    if samples.len() > 0 {
        lemma_mass_bound(samples.drop_last(), low, high);
    }
}

/// The mass of a range of tones is the sum of the masses of its two parts.
pub proof fn lemma_mass_split(samples: Seq<Option<Pixel>>, low: int, middle: int, high: int)
    requires
        low <= middle <= high + 1,
    ensures
        mass(samples, low, high) == mass(samples, low, middle - 1) + mass(samples, middle, high),
    decreases samples.len(),
{
    if samples.len() > 0 {
        lemma_mass_split(samples.drop_last(), low, middle, high);
    }
}

/// One sample more adds its weight.
pub proof fn lemma_mass_step(samples: Seq<Option<Pixel>>, n: int, low: int, high: int)
    requires
        0 <= n < samples.len(),
    ensures
        mass(samples.take(n + 1), low, high) == mass(samples.take(n), low, high) + weight(
            samples[n],
            low,
            high,
        ),
{
    assert(samples.take(n + 1).drop_last() =~= samples.take(n));
}

/// No tone lies in an empty range.
pub proof fn lemma_mass_of_empty_range(samples: Seq<Option<Pixel>>, low: int, high: int)
    requires
        high < low,
    ensures
        mass(samples, low, high) == 0,
    decreases samples.len(),
{
    if samples.len() > 0 {
        lemma_mass_of_empty_range(samples.drop_last(), low, high);
    }
}

/// The mass of each of the 256 tones.
pub open spec fn histogram_of(samples: Seq<Option<Pixel>>) -> Seq<nat> {
    Seq::new(256, |t: int| mass(samples, t, t))
}

/// One sample more changes one entry of a histogram, which has room for it.
pub proof fn lemma_histogram_step(samples: Seq<Option<Pixel>>, n: int)
    requires
        0 <= n < samples.len() <= usize::MAX,
    ensures
        samples[n] is None ==> histogram_of(samples.take(n + 1)) == histogram_of(samples.take(n)),
        samples[n] matches Some(pixel) ==> {
            &&& histogram_of(samples.take(n))[tone_of(pixel)] + 255 <= u128::MAX
            &&& histogram_of(samples.take(n + 1)) == histogram_of(samples.take(n)).update(
                tone_of(pixel),
                histogram_of(samples.take(n))[tone_of(pixel)] + pixel[3] as nat,
            )
        },
{
    let before = histogram_of(samples.take(n));
    let after = histogram_of(samples.take(n + 1));
    assert forall|t: int| 0 <= t < 256 implies #[trigger] after[t] == before[t] + weight(
        samples[n],
        t,
        t,
    ) by {
        lemma_mass_step(samples, n, t, t);
    }
    match samples[n] {
        Some(pixel) => {
            let t = tone_of(pixel);
            lemma_mass_bound(samples.take(n), t, t);
            assert(after =~= before.update(t, before[t] + pixel[3] as nat));
        },
        None => {
            assert(after =~= before);
        },
    }
}

/// The sum of the entries from `low` to `high`, both included.
pub open spec fn range_sum(entries: Seq<nat>, low: int, high: int) -> nat
    decreases high - low + 1,
{
    if high < low {
        0
    } else {
        range_sum(entries, low, high - 1) + entries[high]
    }
}

/// A range within a range has no larger sum.
pub proof fn lemma_range_sum_within(entries: Seq<nat>, low: int, high: int, from: int, to: int)
    requires
        from <= low,
        high <= to,
    ensures
        range_sum(entries, low, high) <= range_sum(entries, from, to),
    decreases to - from + 1,
{
    if from <= to {
        if high < low {
        } else if high < to {
            lemma_range_sum_within(entries, low, high, from, to - 1);
        } else {
            lemma_range_sum_within(entries, low, high - 1, from, to - 1);
        }
    }
}

/// The entries of a histogram over a range of tones add up to the mass of that range.
pub proof fn lemma_range_sum_is_mass(samples: Seq<Option<Pixel>>, low: int, high: int)
    requires
        0 <= low,
        high <= 255,
    ensures
        range_sum(histogram_of(samples), low, high) == mass(samples, low, high),
    decreases high - low + 1,
{
    if high < low {
        lemma_mass_of_empty_range(samples, low, high);
    } else {
        lemma_range_sum_is_mass(samples, low, high - 1);
        lemma_mass_split(samples, low, high, high);
    }
}

/// The mass of each of the 256 tones, gathered pixel by pixel.
pub struct Histogram {
    masses: [u128; 256],
}

impl View for Histogram {
    type V = Seq<nat>;

    closed spec fn view(&self) -> Seq<nat> {
        Seq::new(256, |t: int| self.masses[t] as nat)
    }
}

impl Histogram {
    /// A histogram of no pixels.
    pub fn new() -> (histogram: Histogram)
        ensures
            histogram@ == histogram_of(Seq::empty()),
    {
        let histogram = Histogram { masses: [0u128; 256] };
        assert(histogram@ =~= histogram_of(Seq::empty()));
        histogram
    }

    /// Adds the alpha of a pixel to its tone.
    pub fn add(&mut self, pixel: Pixel)
        requires
            old(self)@[tone_of(pixel)] + 255 <= u128::MAX,
        ensures
            final(self)@ == old(self)@.update(
                tone_of(pixel),
                old(self)@[tone_of(pixel)] + pixel[3] as nat,
            ),
    {
        let t: usize = intensity(pixel) as usize;
        self.masses[t] = self.masses[t] + pixel[3] as u128;
        assert(self@ =~= old(self)@.update(t as int, old(self)@[t as int] + pixel[3] as nat));
    }

    /// The mass of one tone.
    pub fn at(&self, t: u8) -> (mass: u128)
        ensures
            mass == self@[t as int],
    {
        self.masses[t as usize]
    }

    /// The lowest tone that has any mass.
    pub fn lowest(&self) -> (least: Option<u8>)
        ensures
            match least {
                Some(t) => self@[t as int] > 0 && forall|u: int|
                    0 <= u < t ==> #[trigger] self@[u] == 0,
                None => forall|u: int| 0 <= u < 256 ==> #[trigger] self@[u] == 0,
            },
    {
        let mut t: usize = 0;
        while t < 256
            invariant
                t <= 256,
                forall|u: int| 0 <= u < t ==> #[trigger] self@[u] == 0,
            decreases 256 - t,
        {
            if self.masses[t] > 0 {
                return Some(t as u8);
            }
            t += 1;
        }
        None
    }

    /// The highest tone that has any mass.
    pub fn highest(&self) -> (most: Option<u8>)
        ensures
            match most {
                Some(t) => self@[t as int] > 0 && forall|u: int|
                    t < u < 256 ==> #[trigger] self@[u] == 0,
                None => forall|u: int| 0 <= u < 256 ==> #[trigger] self@[u] == 0,
            },
    {
        let mut above: usize = 256;
        while above > 0
            invariant
                above <= 256,
                forall|u: int| above <= u < 256 ==> #[trigger] self@[u] == 0,
            decreases above,
        {
            if self.masses[above - 1] > 0 {
                return Some((above - 1) as u8);
            }
            above -= 1;
        }
        None
    }

    /// The mass of the tones from `low` to `high`, both included.
    pub fn between(&self, low: u8, high: u8) -> (sum: u128)
        requires
            range_sum(self@, 0, 255) <= u128::MAX,
        ensures
            sum == range_sum(self@, low as int, high as int),
    {
        let mut sum: u128 = 0;
        let mut t: usize = low as usize;
        while t <= high as usize
            invariant
                low <= t <= 256,
                low <= high ==> t <= high + 1,
                high < low ==> t == low,
                sum == range_sum(self@, low as int, t - 1),
                range_sum(self@, 0, 255) <= u128::MAX,
            decreases 256 - t,
        {
            proof {
                lemma_range_sum_within(self@, low as int, t as int, 0, 255);
            }
            sum += self.masses[t];
            t += 1;
        }
        sum
    }
}

/// The ends of a histogram are the darkest and the brightest tone.
pub proof fn lemma_histogram_ends(samples: Seq<Option<Pixel>>, low: Option<u8>, high: Option<u8>)
    requires
        match low {
            Some(t) => histogram_of(samples)[t as int] > 0 && forall|u: int|
                0 <= u < t ==> #[trigger] histogram_of(samples)[u] == 0,
            None => forall|u: int| 0 <= u < 256 ==> #[trigger] histogram_of(samples)[u] == 0,
        },
        match high {
            Some(t) => histogram_of(samples)[t as int] > 0 && forall|u: int|
                t < u < 256 ==> #[trigger] histogram_of(samples)[u] == 0,
            None => forall|u: int| 0 <= u < 256 ==> #[trigger] histogram_of(samples)[u] == 0,
        },
    ensures
        low is Some <==> lowest_tone(samples) is Some,
        high is Some <==> highest_tone(samples) is Some,
        low is Some <==> high is Some,
        low is Some ==> lowest_tone(samples) == Some(low->0 as int) && highest_tone(samples)
            == Some(high->0 as int) && low->0 <= high->0,
{
    let entries = histogram_of(samples);
    lemma_lowest_tone(samples);
    lemma_highest_tone(samples);
    assert forall|t: int| 0 <= t < 256 implies (#[trigger] entries[t] > 0 <==> has_tone(
        samples,
        t,
    )) by {
        lemma_mass_presence(samples, t, t);
    }
    assert forall|t: int| #[trigger] has_tone(samples, t) implies 0 <= t < 256 && entries[t]
        > 0 by {}
}

} // verus!

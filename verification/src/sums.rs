//! Masses and counts as sums of numbers.

use vstd::prelude::*;

use crate::badge;
use crate::raster::Pixel;
use crate::tone;

verus! {

/// The sum of a sequence of numbers.
pub open spec fn sum_of(numbers: Seq<nat>) -> nat
    decreases numbers.len(),
{
    if numbers.len() == 0 {
        0
    } else {
        sum_of(numbers.drop_last()) + numbers.last()
    }
}

/// The weights of samples on a range of tones.
pub open spec fn weights_of(samples: Seq<Option<Pixel>>, low: int, high: int) -> Seq<nat> {
    Seq::new(samples.len(), |i: int| tone::weight(samples[i], low, high))
}

/// The mass of a range of tones is the sum of the weights on it.
pub proof fn lemma_mass_is_sum(samples: Seq<Option<Pixel>>, low: int, high: int)
    ensures
        tone::mass(samples, low, high) == sum_of(weights_of(samples, low, high)),
    decreases samples.len(),
{
    if samples.len() > 0 {
        lemma_mass_is_sum(samples.drop_last(), low, high);
        assert(weights_of(samples, low, high).drop_last() =~= weights_of(
            samples.drop_last(),
            low,
            high,
        ));
    }
}

/// One for each mark.
pub open spec fn ones_of(mask: Seq<bool>) -> Seq<nat> {
    Seq::new(
        mask.len(),
        |i: int|
            if mask[i] {
                1nat
            } else {
                0
            },
    )
}

/// The count of marks is the sum of a one for each.
pub proof fn lemma_count_is_sum(mask: Seq<bool>)
    ensures
        badge::count(mask) == sum_of(ones_of(mask)),
    decreases mask.len(),
{
    if mask.len() > 0 {
        lemma_count_is_sum(mask.drop_last());
        assert(ones_of(mask).drop_last() =~= ones_of(mask.drop_last()));
    }
}

/// The alpha of the samples at the places of a choice.
pub open spec fn alpha_where(samples: Seq<Option<Pixel>>, chosen: spec_fn(int) -> bool) -> nat
    decreases samples.len(),
{
    if samples.len() == 0 {
        0
    } else {
        alpha_where(samples.drop_last(), chosen) + match samples.last() {
            Some(pixel) => if chosen(samples.len() - 1) {
                pixel[3] as nat
            } else {
                0
            },
            None => 0,
        }
    }
}

/// The alpha of all samples.
pub open spec fn alpha_of(samples: Seq<Option<Pixel>>) -> nat {
    alpha_where(samples, |i: int| true)
}

/// How many of the numbers below `n` are of a choice.
pub open spec fn count_where(n: int, chosen: spec_fn(int) -> bool) -> nat
    decreases n,
{
    if n <= 0 {
        0
    } else {
        count_where(n - 1, chosen) + if chosen(n - 1) {
            1nat
        } else {
            0
        }
    }
}

/// A choice that takes in another one holds no less alpha.
pub proof fn lemma_alpha_within(
    samples: Seq<Option<Pixel>>,
    chosen: spec_fn(int) -> bool,
    wider: spec_fn(int) -> bool,
)
    requires
        forall|i: int|
            0 <= i < samples.len() && #[trigger] samples[i] is Some && chosen(i) ==> wider(i),
    ensures
        alpha_where(samples, chosen) <= alpha_where(samples, wider),
    decreases samples.len(),
{
    if samples.len() > 0 {
        let rest = samples.drop_last();
        assert forall|i: int|
            0 <= i < rest.len() && #[trigger] rest[i] is Some && chosen(i) implies wider(i) by {
            assert(samples[i] is Some);
        }
        lemma_alpha_within(rest, chosen, wider);
        assert(samples[samples.len() - 1] == samples.last());
    }
}

/// The alpha of two choices without a sample in common, and that of both together.
pub proof fn lemma_alpha_apart(
    samples: Seq<Option<Pixel>>,
    chosen: spec_fn(int) -> bool,
    other: spec_fn(int) -> bool,
    both: spec_fn(int) -> bool,
)
    requires
        forall|i: int|
            0 <= i < samples.len() && #[trigger] samples[i] is Some ==> !(chosen(i) && other(i))
                && both(i) == (chosen(i) || other(i)),
    ensures
        alpha_where(samples, both) == alpha_where(samples, chosen) + alpha_where(samples, other),
    decreases samples.len(),
{
    if samples.len() > 0 {
        let rest = samples.drop_last();
        assert forall|i: int| 0 <= i < rest.len() && #[trigger] rest[i] is Some implies !(chosen(i)
            && other(i)) && both(i) == (chosen(i) || other(i)) by {
            assert(samples[i] is Some);
        }
        lemma_alpha_apart(rest, chosen, other, both);
        assert(samples[samples.len() - 1] == samples.last());
    }
}

/// The mass of a range of tones is the alpha of the samples in it.
pub proof fn lemma_mass_where(
    samples: Seq<Option<Pixel>>,
    low: int,
    high: int,
    chosen: spec_fn(int) -> bool,
)
    requires
        forall|i: int|
            0 <= i < samples.len() ==> (#[trigger] samples[i] matches Some(pixel) ==> (chosen(i)
                <==> low <= tone::tone_of(pixel) <= high)),
    ensures
        tone::mass(samples, low, high) == alpha_where(samples, chosen),
    decreases samples.len(),
{
    if samples.len() > 0 {
        let rest = samples.drop_last();
        assert forall|i: int| 0 <= i < rest.len() implies (#[trigger] rest[i] matches Some(pixel)
            ==> (chosen(i) <==> low <= tone::tone_of(pixel) <= high)) by {
            assert(rest[i] == samples[i]);
        }
        lemma_mass_where(rest, low, high, chosen);
        assert(samples[samples.len() - 1] == samples.last());
    }
}

/// The mass of the samples that are left of others is the alpha at the places that are kept.
pub proof fn lemma_mass_of_kept(
    samples: Seq<Option<Pixel>>,
    kept: Seq<Option<Pixel>>,
    chosen: spec_fn(int) -> bool,
)
    requires
        kept.len() == samples.len(),
        forall|i: int|
            0 <= i < samples.len() ==> #[trigger] kept[i] == if chosen(i) {
                samples[i]
            } else {
                None
            },
    ensures
        tone::mass(kept, 0, 255) == alpha_where(samples, chosen),
    decreases samples.len(),
{
    if samples.len() > 0 {
        let (rest, kept_rest) = (samples.drop_last(), kept.drop_last());
        assert forall|i: int| 0 <= i < rest.len() implies #[trigger] kept_rest[i] == if chosen(i) {
            rest[i]
        } else {
            None
        } by {
            assert(kept[i] == kept_rest[i]);
        }
        lemma_mass_of_kept(rest, kept_rest, chosen);
        assert(kept[kept.len() - 1] == kept.last());
        assert(samples[samples.len() - 1] == samples.last());
    }
}

/// The count of marks is the number of marked places.
pub proof fn lemma_count_where(mask: Seq<bool>, chosen: spec_fn(int) -> bool)
    requires
        forall|i: int| 0 <= i < mask.len() ==> #[trigger] mask[i] == chosen(i),
    ensures
        badge::count(mask) == count_where(mask.len() as int, chosen),
    decreases mask.len(),
{
    if mask.len() > 0 {
        let rest = mask.drop_last();
        assert forall|i: int| 0 <= i < rest.len() implies #[trigger] rest[i] == chosen(i) by {
            assert(mask[i] == rest[i]);
        }
        lemma_count_where(rest, chosen);
        assert(mask[mask.len() - 1] == mask.last());
    }
}

} // verus!

//! Only differences of brightness and shares of alpha count: what is decided on samples does not
//! change when all of them become brighter or darker by the same step, or more or less opaque by
//! the same factor.

use vstd::prelude::*;

use crate::contour;
use crate::decision::Verdict;
use crate::paint;
use crate::palette;
use crate::raster;
use crate::raster::Pixel;
use crate::tone;
use crate::verdicts;

verus! {

/// `other` has samples at the same places, each `shift` steps brighter, with `n` parts of its
/// alpha out of `d`, and coloured where it was.
pub open spec fn is_shaded(
    samples: Seq<Option<Pixel>>,
    other: Seq<Option<Pixel>>,
    shift: int,
    n: int,
    d: int,
) -> bool {
    &&& 0 < n
    &&& 0 < d
    &&& other.len() == samples.len()
    &&& forall|i: int|
        0 <= i < samples.len() ==> is_shade(#[trigger] samples[i], other[i], shift, n, d)
}

/// `other` is a sample where `sample` is one, `shift` steps brighter, with `n` parts of its alpha
/// out of `d`, and coloured where that is.
pub open spec fn is_shade(
    sample: Option<Pixel>,
    other: Option<Pixel>,
    shift: int,
    n: int,
    d: int,
) -> bool {
    match (sample, other) {
        (Some(pixel), Some(shade)) => {
            &&& tone::tone_of(shade) == tone::tone_of(pixel) + shift
            &&& d * shade[3] == n * pixel[3]
            &&& verdicts::has_hue(shade) == verdicts::has_hue(pixel)
        },
        (None, None) => true,
        _ => false,
    }
}

/// A decision with its tones moved by a step.
pub open spec fn moved(verdict: Verdict, shift: int) -> Verdict {
    match verdict {
        Verdict::Duotone { low, high, high_is_primary } => Verdict::Duotone {
            low: low + shift,
            high: high + shift,
            high_is_primary,
        },
        _ => verdict,
    }
}

/// Masses are scaled with the alpha.
proof fn lemma_mass(
    samples: Seq<Option<Pixel>>,
    other: Seq<Option<Pixel>>,
    shift: int,
    n: int,
    d: int,
    low: int,
    high: int,
)
    requires
        is_shaded(samples, other, shift, n, d),
    ensures
        d * tone::mass(other, low + shift, high + shift) == n * tone::mass(samples, low, high),
    decreases samples.len(),
{
    if samples.len() > 0 {
        let (rest, other_rest) = (samples.drop_last(), other.drop_last());
        assert forall|i: int| 0 <= i < rest.len() implies is_shade(
            #[trigger] rest[i],
            other_rest[i],
            shift,
            n,
            d,
        ) by {
            assert(is_shade(samples[i], other[i], shift, n, d));
        }
        lemma_mass(rest, other_rest, shift, n, d, low, high);
        let last = samples.len() - 1;
        assert(is_shade(samples[last], other[last], shift, n, d));
        let a = tone::mass(rest, low, high) as int;
        let b = tone::mass(other_rest, low + shift, high + shift) as int;
        let v = tone::weight(samples.last(), low, high) as int;
        let w = tone::weight(other.last(), low + shift, high + shift) as int;
        assert(d * w == n * v) by {
            assert(d * 0 == n * 0);
        }
        assert(d * (b + w) == n * (a + v)) by (nonlinear_arith)
            requires
                d * b == n * a,
                d * w == n * v,
        ;
    } else {
        assert(d * 0 == n * 0);
    }
}

/// Ranges that take in the same samples have the same mass.
proof fn lemma_same_mass(
    samples: Seq<Option<Pixel>>,
    low: int,
    high: int,
    from: int,
    to: int,
)
    requires
        forall|i: int|
            0 <= i < samples.len() ==> (#[trigger] samples[i] matches Some(pixel) ==> (low
                <= tone::tone_of(pixel) <= high) == (from <= tone::tone_of(pixel) <= to)),
    ensures
        tone::mass(samples, low, high) == tone::mass(samples, from, to),
    decreases samples.len(),
{
    if samples.len() > 0 {
        let rest = samples.drop_last();
        assert forall|i: int| 0 <= i < rest.len() implies (#[trigger] rest[i] matches Some(pixel)
            ==> (low <= tone::tone_of(pixel) <= high) == (from <= tone::tone_of(pixel) <= to)) by {
            assert(rest[i] == samples[i]);
        }
        lemma_same_mass(rest, low, high, from, to);
        assert(samples[samples.len() - 1] == samples.last());
    }
}

/// The mass of all tones is scaled with the alpha.
proof fn lemma_total(
    samples: Seq<Option<Pixel>>,
    other: Seq<Option<Pixel>>,
    shift: int,
    n: int,
    d: int,
)
    requires
        is_shaded(samples, other, shift, n, d),
    ensures
        d * tone::mass(other, 0, 255) == n * tone::mass(samples, 0, 255),
{
    lemma_mass(samples, other, shift, n, d, 0, 255);
    assert forall|i: int| 0 <= i < other.len() implies (#[trigger] other[i] matches Some(pixel)
        ==> (0 <= tone::tone_of(pixel) <= 255) == (shift <= tone::tone_of(pixel) <= 255
        + shift)) by {
        assert(is_shade(samples[i], other[i], shift, n, d));
    }
    lemma_same_mass(other, 0, 255, shift, 255 + shift);
}

/// Scaling two numbers alike keeps which of their multiples is the larger.
proof fn lemma_scaled(a: int, b: int, scaled_a: int, scaled_b: int, n: int, d: int, p: int, q: int)
    requires
        0 < n,
        0 < d,
        d * scaled_a == n * a,
        d * scaled_b == n * b,
    ensures
        p * scaled_a >= q * scaled_b <==> p * a >= q * b,
{
    assert(d * (p * scaled_a) == p * (d * scaled_a)) by (nonlinear_arith);
    assert(d * (q * scaled_b) == q * (d * scaled_b)) by (nonlinear_arith);
    assert(n * (p * a) == p * (n * a)) by (nonlinear_arith);
    assert(n * (q * b) == q * (n * b)) by (nonlinear_arith);
    assert(d * (p * scaled_a - q * scaled_b) == d * (p * scaled_a) - d * (q * scaled_b))
        by (nonlinear_arith);
    assert(n * (p * a - q * b) == n * (p * a) - n * (q * b)) by (nonlinear_arith);
    let (left, right) = (p * scaled_a - q * scaled_b, p * a - q * b);
    assert(left >= 0 <==> right >= 0) by (nonlinear_arith)
        requires
            0 < n,
            0 < d,
            d * left == n * right,
    ;
}

/// Shares stay what they are.
proof fn lemma_share(part: nat, whole: nat, scaled_part: nat, scaled_whole: nat, n: int, d: int)
    requires
        0 < n,
        0 < d,
        d * scaled_part == n * part,
        d * scaled_whole == n * whole,
    ensures
        palette::explains(scaled_part, scaled_whole) == palette::explains(part, whole),
{
    lemma_scaled(
        part as int,
        whole as int,
        scaled_part as int,
        scaled_whole as int,
        n,
        d,
        100,
        palette::MIN_DUOTONE_PERCENT as int,
    );
}

/// A sample with alpha keeps some.
proof fn lemma_weighs(sample: Option<Pixel>, other: Option<Pixel>, shift: int, n: int, d: int)
    requires
        is_shade(sample, other, shift, n, d),
        0 < n,
        0 < d,
    ensures
        tone::weighs(other) == tone::weighs(sample),
{
    if let (Some(pixel), Some(shade)) = (sample, other) {
        let (a, b) = (pixel[3] as int, shade[3] as int);
        assert(a > 0 <==> b > 0) by (nonlinear_arith)
            requires
                0 < n,
                0 < d,
                d * b == n * a,
                a >= 0,
                b >= 0,
        ;
    }
}

/// The ends of the tones move with the samples.
proof fn lemma_tones(
    samples: Seq<Option<Pixel>>,
    other: Seq<Option<Pixel>>,
    shift: int,
    n: int,
    d: int,
)
    requires
        is_shaded(samples, other, shift, n, d),
    ensures
        tone::lowest_tone(samples) is None <==> tone::lowest_tone(other) is None,
        tone::highest_tone(samples) is None <==> tone::highest_tone(other) is None,
        tone::lowest_tone(samples) is None <==> tone::highest_tone(samples) is None,
        tone::lowest_tone(samples) is Some ==> tone::lowest_tone(other) == Some(
            tone::lowest_tone(samples)->0 + shift,
        ),
        tone::highest_tone(samples) is Some ==> tone::highest_tone(other) == Some(
            tone::highest_tone(samples)->0 + shift,
        ),
{
    tone::lemma_lowest_tone(samples);
    tone::lemma_lowest_tone(other);
    tone::lemma_highest_tone(samples);
    tone::lemma_highest_tone(other);
    assert forall|i: int| 0 <= i < samples.len() implies is_shade(
        #[trigger] samples[i],
        other[i],
        shift,
        n,
        d,
    ) && tone::weighs(other[i]) == tone::weighs(samples[i]) by {
        lemma_weighs(samples[i], other[i], shift, n, d);
    }
    assert forall|i: int| 0 <= i < samples.len() implies is_shade(
        samples[i],
        #[trigger] other[i],
        shift,
        n,
        d,
    ) && tone::weighs(other[i]) == tone::weighs(samples[i]) by {
        lemma_weighs(samples[i], other[i], shift, n, d);
    }
}

/// The middle of a solid area stays one.
proof fn lemma_solid(
    samples: Seq<Option<Pixel>>,
    other: Seq<Option<Pixel>>,
    shift: int,
    n: int,
    d: int,
    width: int,
    height: int,
    i: int,
)
    requires
        is_shaded(samples, other, shift, n, d),
        samples.len() == width * height,
        0 <= i < samples.len(),
    ensures
        palette::is_solid(other, width, height, i) == palette::is_solid(samples, width, height, i),
{
    assert(is_shade(samples[i], other[i], shift, n, d));
    assert forall|j: int| #[trigger] palette::is_near(i, j, width, height, 1) implies is_shade(
        samples[j],
        other[j],
        shift,
        n,
        d,
    ) by {}
    if palette::is_solid(other, width, height, i) {
        assert(palette::is_solid(samples, width, height, i));
    }
    if palette::is_solid(samples, width, height, i) {
        assert(palette::is_solid(other, width, height, i));
    }
}

/// An edge reaches what it reached.
proof fn lemma_reach(
    samples: Seq<Option<Pixel>>,
    other: Seq<Option<Pixel>>,
    shift: int,
    n: int,
    d: int,
    width: int,
    height: int,
    i: int,
    t: int,
)
    requires
        is_shaded(samples, other, shift, n, d),
        samples.len() == width * height,
    ensures
        palette::reaches_tone(other, width, height, i, t + shift) == palette::reaches_tone(
            samples,
            width,
            height,
            i,
            t,
        ),
        palette::reaches_gap(other, width, height, i) == palette::reaches_gap(
            samples,
            width,
            height,
            i,
        ),
{
    let radius = palette::ANTIALIAS_RADIUS as int;
    assert forall|j: int| #[trigger] palette::is_near(i, j, width, height, radius) implies is_shade(
        samples[j],
        other[j],
        shift,
        n,
        d,
    ) by {}
}

/// What two inks explain, the inks moved explain of the samples moved.
proof fn lemma_supported(
    samples: Seq<Option<Pixel>>,
    other: Seq<Option<Pixel>>,
    shift: int,
    n: int,
    d: int,
    width: int,
    height: int,
    low: int,
    high: int,
)
    requires
        is_shaded(samples, other, shift, n, d),
        samples.len() == width * height,
    ensures
        is_shaded(
            palette::supported_only(samples, width, height, low, high),
            palette::supported_only(other, width, height, low + shift, high + shift),
            shift,
            n,
            d,
        ),
{
    let a = palette::supported_only(samples, width, height, low, high);
    let b = palette::supported_only(other, width, height, low + shift, high + shift);
    assert forall|i: int| 0 <= i < a.len() implies is_shade(
        #[trigger] a[i],
        b[i],
        shift,
        n,
        d,
    ) by {
        assert(is_shade(samples[i], other[i], shift, n, d));
        lemma_reach(samples, other, shift, n, d, width, height, i, low);
        lemma_reach(samples, other, shift, n, d, width, height, i, high);
    }
}

/// The palette of samples moves with them.
proof fn lemma_palette(
    samples: Seq<Option<Pixel>>,
    other: Seq<Option<Pixel>>,
    shift: int,
    n: int,
    d: int,
    width: int,
    height: int,
)
    requires
        is_shaded(samples, other, shift, n, d),
        samples.len() == width * height,
    ensures
        palette::solid_palette(samples, width, height) is None ==> palette::solid_palette(
            other,
            width,
            height,
        ) is None,
        palette::solid_palette(samples, width, height) matches Some(verdict)
            ==> palette::solid_palette(other, width, height) == Some(moved(verdict, shift)),
{
    let solid = palette::solid_only(samples, width, height);
    let other_solid = palette::solid_only(other, width, height);
    assert forall|i: int| 0 <= i < solid.len() implies is_shade(
        #[trigger] solid[i],
        other_solid[i],
        shift,
        n,
        d,
    ) by {
        assert(is_shade(samples[i], other[i], shift, n, d));
        lemma_solid(samples, other, shift, n, d, width, height, i);
    }
    lemma_tones(solid, other_solid, shift, n, d);
    if tone::lowest_tone(solid) is Some {
        let (low, high) = (tone::lowest_tone(solid)->0, tone::highest_tone(solid)->0);
        let inked = palette::inked_only(solid, low, high);
        let other_inked = palette::inked_only(other_solid, low + shift, high + shift);
        assert forall|i: int| 0 <= i < inked.len() implies is_shade(
            #[trigger] inked[i],
            other_inked[i],
            shift,
            n,
            d,
        ) by {
            assert(is_shade(solid[i], other_solid[i], shift, n, d));
        }
        lemma_total(inked, other_inked, shift, n, d);
        lemma_total(solid, other_solid, shift, n, d);
        lemma_share(
            tone::mass(inked, 0, 255),
            tone::mass(solid, 0, 255),
            tone::mass(other_inked, 0, 255),
            tone::mass(other_solid, 0, 255),
            n,
            d,
        );
        let supported = palette::supported_only(samples, width, height, low, high);
        let other_supported = palette::supported_only(
            other,
            width,
            height,
            low + shift,
            high + shift,
        );
        lemma_supported(samples, other, shift, n, d, width, height, low, high);
        lemma_total(supported, other_supported, shift, n, d);
        lemma_total(samples, other, shift, n, d);
        lemma_share(
            tone::mass(supported, 0, 255),
            tone::mass(samples, 0, 255),
            tone::mass(other_supported, 0, 255),
            tone::mass(other, 0, 255),
            n,
            d,
        );
        let t = tone::TONE_TOLERANCE as int;
        lemma_mass(samples, other, shift, n, d, high - t, high + t);
        lemma_mass(samples, other, shift, n, d, low - t, low + t);
        lemma_scaled(
            tone::mass(samples, high - t, high + t) as int,
            tone::mass(samples, low - t, low + t) as int,
            tone::mass(other, high + shift - t, high + shift + t) as int,
            tone::mass(other, low + shift - t, low + shift + t) as int,
            n,
            d,
            1,
            1,
        );
    }
}

/// `other` has levels at the same places, each `shift` steps brighter.
spec fn is_raised(levels: Seq<Option<u8>>, other: Seq<Option<u8>>, shift: int) -> bool {
    &&& other.len() == levels.len()
    &&& forall|i: int|
        0 <= i < levels.len() ==> (#[trigger] levels[i] is Some <==> other[i] is Some) && (
        levels[i] is Some ==> other[i]->0 == levels[i]->0 + shift)
}

/// Inks along a stretch stay the same.
proof fn lemma_inks(
    stretch: Seq<Option<u8>>,
    other: Seq<Option<u8>>,
    shift: int,
    low: int,
    high: int,
)
    requires
        is_raised(stretch, other, shift),
    ensures
        contour::inks_along(other, low + shift, high + shift) == contour::inks_along(
            stretch,
            low,
            high,
        ),
    decreases stretch.len(),
{
    if stretch.len() > 0 {
        let (rest, other_rest) = (stretch.drop_last(), other.drop_last());
        assert forall|i: int| 0 <= i < rest.len() implies (#[trigger] rest[i] is Some
            <==> other_rest[i] is Some) && (rest[i] is Some ==> other_rest[i]->0 == rest[i]->0
            + shift) by {
            assert(stretch[i] is Some <==> other[i] is Some);
        }
        lemma_inks(rest, other_rest, shift, low, high);
        let last = stretch.len() - 1;
        assert(stretch[last] is Some <==> other[last] is Some);
    }
}

/// A line stays as visible and as complex as it was.
proof fn lemma_line(
    line: Seq<Option<u8>>,
    other: Seq<Option<u8>>,
    shift: int,
    low: int,
    high: int,
    high_is_primary: bool,
)
    requires
        is_raised(line, other, shift),
    ensures
        contour::is_visible_line(other) == contour::is_visible_line(line),
        contour::is_complex_line(other, low + shift, high + shift, high_is_primary)
            == contour::is_complex_line(line, low, high, high_is_primary),
{
    assert forall|i: int| 0 <= i < line.len() implies (line[i] is Some
        <==> #[trigger] other[i] is Some) by {}
    assert forall|start: int, end: int| #[trigger]
        contour::is_run(other, start, end) == contour::is_run(line, start, end) by {
        if contour::is_run(line, start, end) {
            assert(start == 0 || line[start - 1] is None);
            assert(end == line.len() || line[end] is None);
        }
        if contour::is_run(other, start, end) {
            assert(start == 0 || other[start - 1] is None);
            assert(end == other.len() || other[end] is None);
        }
    }
    assert forall|start: int, end: int| #[trigger] contour::is_run(line, start, end) implies {
        &&& contour::is_run(other, start, end)
        &&& contour::inks_along(other.subrange(start, end), low + shift, high + shift)
            == contour::inks_along(line.subrange(start, end), low, high)
    } by {
        assert(contour::is_run(other, start, end));
        let (a, b) = (line.subrange(start, end), other.subrange(start, end));
        assert forall|i: int| 0 <= i < a.len() implies (#[trigger] a[i] is Some <==> b[i] is Some)
            && (a[i] is Some ==> b[i]->0 == a[i]->0 + shift) by {
            assert(line[start + i] is Some <==> other[start + i] is Some);
        }
        lemma_inks(a, b, shift, low, high);
    }
    if contour::is_complex_line(other, low + shift, high + shift, high_is_primary) {
        let (start, end) = choose|start: int, end: int| #[trigger]
            contour::is_run(other, start, end) && contour::is_complex_run(
                contour::inks_along(other.subrange(start, end), low + shift, high + shift),
                low + shift,
                high + shift,
                high_is_primary,
            );
        assert(contour::is_run(line, start, end));
    }
    if contour::is_complex_line(line, low, high, high_is_primary) {
        let (start, end) = choose|start: int, end: int| #[trigger]
            contour::is_run(line, start, end) && contour::is_complex_run(
                contour::inks_along(line.subrange(start, end), low, high),
                low,
                high,
                high_is_primary,
            );
        assert(contour::is_run(other, start, end));
    }
}

/// The first lines count as they did.
proof fn lemma_lines(
    levels: Seq<Option<u8>>,
    other: Seq<Option<u8>>,
    shift: int,
    width: int,
    height: int,
    vertical: bool,
    low: int,
    high: int,
    high_is_primary: bool,
    n: int,
)
    requires
        is_raised(levels, other, shift),
        levels.len() == width * height,
        0 <= width,
        0 <= height,
        n <= contour::line_count(width, height, vertical),
    ensures
        contour::visible_lines(other, width, height, vertical, n) == contour::visible_lines(
            levels,
            width,
            height,
            vertical,
            n,
        ),
        contour::complex_lines(
            other,
            width,
            height,
            vertical,
            low + shift,
            high + shift,
            high_is_primary,
            n,
        ) == contour::complex_lines(
            levels,
            width,
            height,
            vertical,
            low,
            high,
            high_is_primary,
            n,
        ),
    decreases n,
{
    if n > 0 {
        lemma_lines(
            levels,
            other,
            shift,
            width,
            height,
            vertical,
            low,
            high,
            high_is_primary,
            n - 1,
        );
        let a = contour::line_at(levels, width, height, vertical, n - 1);
        let b = contour::line_at(other, width, height, vertical, n - 1);
        assert forall|i: int| 0 <= i < a.len() implies (#[trigger] a[i] is Some <==> b[i] is Some)
            && (a[i] is Some ==> b[i]->0 == a[i]->0 + shift) by {
            let place = if vertical {
                raster::cell(n - 1, i, width)
            } else {
                raster::cell(i, n - 1, width)
            };
            if vertical {
                raster::lemma_cell(n - 1, i, width, height);
            } else {
                raster::lemma_cell(i, n - 1, width, height);
            }
            assert(levels[place] is Some <==> other[place] is Some);
        }
        lemma_line(a, b, shift, low, high, high_is_primary);
    }
}

/// Only differences of brightness and shares of alpha decide. Samples that all become brighter or
/// darker by the same step, and more or less opaque by the same factor, are decided alike, and
/// the two tones of an icon of two tones move by that step.
pub proof fn law_decisions_move_with_brightness(
    samples: Seq<Option<Pixel>>,
    other: Seq<Option<Pixel>>,
    shift: int,
    n: int,
    d: int,
    width: int,
    height: int,
)
    requires
        is_shaded(samples, other, shift, n, d),
        samples.len() == width * height,
        0 <= width,
        0 <= height,
    ensures
        paint::judge(other, width, height) == moved(paint::judge(samples, width, height), shift),
{
    assert forall|i: int| 0 <= i < samples.len() implies is_shade(
        samples[i],
        #[trigger] other[i],
        shift,
        n,
        d,
    ) by {
        assert(is_shade(samples[i], other[i], shift, n, d));
    }
    lemma_colour(samples, other, shift, n, d);
    lemma_tones(samples, other, shift, n, d);
    if !paint::has_colour(samples) && tone::lowest_tone(samples) is Some {
        let (low, high) = (tone::lowest_tone(samples)->0, tone::highest_tone(samples)->0);
        let t = tone::TONE_TOLERANCE as int;
        let (low_mass, high_mass) = (
            tone::mass(samples, low, low + t),
            tone::mass(samples, high - t, high),
        );
        let (other_low, other_high) = (
            tone::mass(other, low + shift, low + shift + t),
            tone::mass(other, high + shift - t, high + shift),
        );
        lemma_mass(samples, other, shift, n, d, low, low + t);
        lemma_mass(samples, other, shift, n, d, high - t, high);
        lemma_scaled(
            high_mass as int,
            low_mass as int,
            other_high as int,
            other_low as int,
            n,
            d,
            1,
            1,
        );
        lemma_total(samples, other, shift, n, d);
        assert(d * (other_low + other_high) == n * (low_mass + high_mass)) by (nonlinear_arith)
            requires
                d * other_low == n * low_mass,
                d * other_high == n * high_mass,
        ;
        lemma_share(
            low_mass + high_mass,
            tone::mass(samples, 0, 255),
            other_low + other_high,
            tone::mass(other, 0, 255),
            n,
            d,
        );
        let (levels, other_levels) = (paint::levels_of(samples), paint::levels_of(other));
        assert forall|i: int| 0 <= i < levels.len() implies (#[trigger] levels[i] is Some
            <==> other_levels[i] is Some) && (levels[i] is Some ==> other_levels[i]->0
            == levels[i]->0 + shift) by {
            assert(is_shade(samples[i], other[i], shift, n, d));
        }
        let high_is_primary = high_mass >= low_mass;
        lemma_lines(
            levels,
            other_levels,
            shift,
            width,
            height,
            false,
            low,
            high,
            high_is_primary,
            height,
        );
        lemma_lines(
            levels,
            other_levels,
            shift,
            width,
            height,
            true,
            low,
            high,
            high_is_primary,
            width,
        );
        lemma_palette(samples, other, shift, n, d, width, height);
    }
}

/// Colour stays.
proof fn lemma_colour(
    samples: Seq<Option<Pixel>>,
    other: Seq<Option<Pixel>>,
    shift: int,
    n: int,
    d: int,
)
    requires
        is_shaded(samples, other, shift, n, d),
    ensures
        paint::has_colour(other) == paint::has_colour(samples),
{
    if paint::has_colour(samples) {
        let i = choose|i: int|
            0 <= i < samples.len() && (#[trigger] samples[i] matches Some(pixel)
                && tone::is_coloured(pixel));
        assert(is_shade(samples[i], other[i], shift, n, d));
        assert(other[i] is Some && tone::is_coloured(other[i]->0));
    }
    if paint::has_colour(other) {
        let i = choose|i: int|
            0 <= i < other.len() && (#[trigger] other[i] matches Some(pixel) && tone::is_coloured(
                pixel,
            ));
        assert(is_shade(samples[i], other[i], shift, n, d));
        assert(samples[i] is Some && tone::is_coloured(samples[i]->0));
    }
}

} // verus!

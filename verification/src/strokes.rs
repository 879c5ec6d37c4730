//! What complex contours are, in terms of the levels along rows and columns.

use vstd::prelude::*;

use crate::contour;
use crate::sums;

verus! {

/// Whether a level is drawn in the low ink, `false`, or in the high one, `true`: it is within
/// twelve steps of that ink. Where the inks meet, levels close to both are drawn in the low one.
pub open spec fn shows(level: Option<u8>, ink: bool, low: int, high: int) -> bool {
    level matches Some(value) && if ink {
        -12 <= value - high <= 12 && !(-12 <= value - low <= 12)
    } else {
        -12 <= value - low <= 12
    }
}

/// Whether a line has no gap from place `a` to place `b`.
pub open spec fn is_unbroken(line: Seq<Option<u8>>, a: int, b: int) -> bool {
    &&& 0 <= a <= b < line.len()
    &&& forall|i: int| a <= i <= b ==> #[trigger] line[i] is Some
}

/// Whether a line goes, without a gap, from one ink to the other, back, and to the other again.
pub open spec fn goes_back_and_forth(line: Seq<Option<u8>>, low: int, high: int) -> bool {
    exists|a: int, b: int, c: int, d: int, ink: bool|
        a < b < c < d && #[trigger] is_unbroken(line, a, d) && #[trigger] shows(
            line[a],
            ink,
            low,
            high,
        ) && shows(#[trigger] line[b], !ink, low, high) && shows(
            #[trigger] line[c],
            ink,
            low,
            high,
        ) && shows(line[d], !ink, low, high)
}

/// Whether a line has, without a gap, `inner` between two places of the other ink.
pub open spec fn encloses(line: Seq<Option<u8>>, inner: bool, low: int, high: int) -> bool {
    exists|a: int, b: int, c: int|
        a < b < c && #[trigger] is_unbroken(line, a, c) && shows(line[a], !inner, low, high)
            && #[trigger] shows(line[b], inner, low, high) && shows(line[c], !inner, low, high)
}

/// Row `y` of a grid.
pub open spec fn row(levels: Seq<Option<u8>>, width: int, y: int) -> Seq<Option<u8>> {
    Seq::new(width as nat, |x: int| levels[y * width + x])
}

/// Column `x` of a grid.
pub open spec fn column(levels: Seq<Option<u8>>, width: int, height: int, x: int) -> Seq<
    Option<u8>,
> {
    Seq::new(height as nat, |y: int| levels[y * width + x])
}

/// Whether a line is more than a simple shape: its inks go back and forth, or inks more than
/// forty-eight steps apart have the primary one enclosed by the other.
pub open spec fn is_busy(line: Seq<Option<u8>>, low: int, high: int, high_is_primary: bool) -> bool {
    ||| goes_back_and_forth(line, low, high)
    ||| high - low > 48 && encloses(line, high_is_primary, low, high)
}

/// Whether anything is on a line.
pub open spec fn is_drawn(line: Seq<Option<u8>>) -> bool {
    exists|i: int| 0 <= i < line.len() && #[trigger] line[i] is Some
}

/// An unbroken run whose ink changes three times is complex, however close to each other or far
/// apart its inks are and whichever of them is the primary one.
pub proof fn law_three_changes_are_complex(
    inks: Seq<bool>,
    low: int,
    high: int,
    high_is_primary: bool,
)
    requires
        contour::changes(inks) >= 3,
    ensures
        contour::is_complex_run(inks, low, high, high_is_primary),
{
}

/// An unbroken run whose ink changes once at most is never complex.
pub proof fn law_one_change_is_simple(
    inks: Seq<bool>,
    low: int,
    high: int,
    high_is_primary: bool,
)
    requires
        contour::changes(inks) <= 1,
    ensures
        !contour::is_complex_run(inks, low, high, high_is_primary),
{
}

/// A run whose ink changes twice is complex exactly where its inks are more than forty-eight
/// steps apart and it begins in the secondary one, as a border around a shape does.
pub proof fn law_two_changes_are_a_border(
    inks: Seq<bool>,
    low: int,
    high: int,
    high_is_primary: bool,
)
    requires
        contour::changes(inks) == 2,
    ensures
        contour::is_complex_run(inks, low, high, high_is_primary) <==> high - low > 48 && inks[0]
            != high_is_primary,
{
    lemma_ends(inks);
}

/// An ink more is a change exactly where it differs from the one before it.
pub proof fn law_changes_are_steps(inks: Seq<bool>, ink: bool)
    ensures
        contour::changes(Seq::<bool>::empty()) == 0,
        contour::changes(seq![ink]) == 0,
        inks.len() > 0 ==> contour::changes(inks.push(ink)) == contour::changes(inks) + if inks[
        inks.len() - 1] == ink {
            0nat
        } else {
            1
        },
{
    assert(inks.push(ink).drop_last() =~= inks);
}

/// The ends of a run are the same ink exactly where it changes an even number of times.
proof fn lemma_ends(inks: Seq<bool>)
    ensures
        inks.len() > 0 ==> (inks.first() == inks.last() <==> contour::changes(inks) % 2 == 0),
    decreases inks.len(),
{
    if inks.len() >= 2 {
        lemma_ends(inks.drop_last());
    }
}

/// `places` go up along a line and show one ink and the other in turn, `ink` first.
spec fn is_pattern(
    line: Seq<Option<u8>>,
    places: Seq<int>,
    ink: bool,
    low: int,
    high: int,
) -> bool {
    &&& places.len() > 0
    &&& forall|k: int| 0 <= k < places.len() ==> 0 <= #[trigger] places[k] < line.len()
    &&& forall|j: int, k: int| 0 <= j < k < places.len() ==> places[j] < places[k]
    &&& forall|k: int|
        0 <= k < places.len() ==> shows(
            line[#[trigger] places[k]],
            if k % 2 == 0 {
                ink
            } else {
                !ink
            },
            low,
            high,
        )
}

/// The ink that the places of a pattern end in.
spec fn last_of(places: Seq<int>, ink: bool) -> bool {
    if places.len() % 2 == 1 {
        ink
    } else {
        !ink
    }
}

/// A stretch that shows inks in turn changes ink as often, and once more for each end of it
/// that has another ink than that end of the pattern.
proof fn lemma_pattern_changes(
    stretch: Seq<Option<u8>>,
    places: Seq<int>,
    ink: bool,
    low: int,
    high: int,
)
    requires
        is_pattern(stretch, places, ink, low, high),
    ensures
        ({
            let inks = contour::inks_along(stretch, low, high);
            &&& inks.len() > 0
            &&& contour::changes(inks) >= places.len() - 1 + (if inks.first() != ink {
                1int
            } else {
                0
            }) + (if inks.last() != last_of(places, ink) {
                1int
            } else {
                0
            })
        }),
    decreases stretch.len(),
{
    let rest = stretch.drop_last();
    let inks = contour::inks_along(stretch, low, high);
    let before = contour::inks_along(rest, low, high);
    let n = places.len() - 1;
    assert(0 <= places[n] < stretch.len());
    if places[n] < stretch.len() - 1 {
        assert forall|k: int| 0 <= k < places.len() implies 0 <= #[trigger] places[k] < rest.len()
            && rest[places[k]] == stretch[places[k]] by {
            if k < n {
                assert(places[k] < places[n]);
            }
        }
        lemma_pattern_changes(rest, places, ink, low, high);
        if inks.len() > before.len() {
            assert(inks.drop_last() =~= before);
        }
    } else {
        assert(stretch.last() == stretch[places[n]]);
        assert(inks == before.push(last_of(places, ink)));
        assert(inks.drop_last() =~= before);
        if n > 0 {
            let fewer = places.drop_last();
            assert forall|k: int| 0 <= k < fewer.len() implies 0 <= #[trigger] fewer[k]
                < rest.len() && rest[fewer[k]] == stretch[fewer[k]] && fewer[k] == places[k] by {
                assert(places[k] < places[n]);
            }
            lemma_pattern_changes(rest, fewer, ink, low, high);
        } else {
            lemma_ends(inks);
        }
    }
}

/// A stretch shows its inks in turn, once more than they change.
proof fn lemma_pattern_found(stretch: Seq<Option<u8>>, low: int, high: int) -> (places: Seq<int>)
    requires
        contour::inks_along(stretch, low, high).len() > 0,
    ensures
        is_pattern(
            stretch,
            places,
            contour::inks_along(stretch, low, high).first(),
            low,
            high,
        ),
        last_of(places, contour::inks_along(stretch, low, high).first()) == contour::inks_along(
            stretch,
            low,
            high,
        ).last(),
        places.len() == contour::changes(contour::inks_along(stretch, low, high)) + 1,
    decreases stretch.len(),
{
    let rest = stretch.drop_last();
    let inks = contour::inks_along(stretch, low, high);
    let before = contour::inks_along(rest, low, high);
    let n = stretch.len() - 1;
    assert(stretch[n] == stretch.last());
    if inks.len() == before.len() {
        lemma_pattern_found(rest, low, high)
    } else {
        assert(inks.drop_last() =~= before);
        if before.len() == 0 {
            seq![n]
        } else {
            let fewer = lemma_pattern_found(rest, low, high);
            if before.last() == inks.last() {
                fewer
            } else {
                let places = fewer.push(n);
                assert forall|k: int| 0 <= k < places.len() implies 0 <= #[trigger] places[k]
                    < stretch.len() && shows(
                    stretch[places[k]],
                    if k % 2 == 0 {
                        inks.first()
                    } else {
                        !inks.first()
                    },
                    low,
                    high,
                ) by {
                    if k < fewer.len() {
                        assert(places[k] == fewer[k]);
                        assert(rest[fewer[k]] == stretch[fewer[k]]);
                    }
                }
                places
            }
        }
    }
}

/// A stretch without a gap lies in a run.
proof fn lemma_run_around(line: Seq<Option<u8>>, a: int, b: int) -> (run: (int, int))
    requires
        is_unbroken(line, a, b),
    ensures
        contour::is_run(line, run.0, run.1),
        run.0 <= a,
        b < run.1,
    decreases a + line.len() - b,
{
    if a > 0 && line[a - 1] is Some {
        lemma_run_around(line, a - 1, b)
    } else if b + 1 < line.len() && line[b + 1] is Some {
        lemma_run_around(line, a, b + 1)
    } else {
        (a, b + 1)
    }
}

/// What a line shows in turn between two places makes the run around them change as often.
proof fn lemma_pattern_in_run(
    line: Seq<Option<u8>>,
    places: Seq<int>,
    ink: bool,
    low: int,
    high: int,
) -> (run: (int, int))
    requires
        is_pattern(line, places, ink, low, high),
        is_unbroken(line, places[0], places[places.len() - 1]),
    ensures
        contour::is_run(line, run.0, run.1),
        ({
            let inks = contour::inks_along(line.subrange(run.0, run.1), low, high);
            &&& inks.len() > 0
            &&& contour::changes(inks) >= places.len() - 1 + (if inks.first() != ink {
                1int
            } else {
                0
            }) + (if inks.last() != last_of(places, ink) {
                1int
            } else {
                0
            })
        }),
{
    let n = places.len() - 1;
    let (start, end) = lemma_run_around(line, places[0], places[n]);
    let stretch = line.subrange(start, end);
    let shifted = Seq::new(places.len(), |k: int| places[k] - start);
    assert forall|k: int| 0 <= k < shifted.len() implies 0 <= #[trigger] shifted[k] < stretch.len()
        && stretch[shifted[k]] == line[places[k]] by {
        if 0 < k {
            assert(places[0] < places[k]);
        }
        if k < n {
            assert(places[k] < places[n]);
        }
    }
    lemma_pattern_changes(stretch, shifted, ink, low, high);
    (start, end)
}

/// A line is complex exactly where its inks go back and forth without a gap, or where the
/// inks are more than forty-eight steps apart and the secondary one encloses the primary one.
pub proof fn law_complex_lines_are_busy(
    line: Seq<Option<u8>>,
    low: int,
    high: int,
    high_is_primary: bool,
)
    ensures
        contour::is_complex_line(line, low, high, high_is_primary) <==> is_busy(
            line,
            low,
            high,
            high_is_primary,
        ),
{
    if contour::is_complex_line(line, low, high, high_is_primary) {
        let (start, end) = choose|start: int, end: int| #[trigger]
            contour::is_run(line, start, end) && contour::is_complex_run(
                contour::inks_along(line.subrange(start, end), low, high),
                low,
                high,
                high_is_primary,
            );
        lemma_complex_run_is_busy(line, start, end, low, high, high_is_primary);
    }
    if goes_back_and_forth(line, low, high) {
        let (a, b, c, d, ink) = choose|a: int, b: int, c: int, d: int, ink: bool|
            a < b < c < d && #[trigger] is_unbroken(line, a, d) && #[trigger] shows(
                line[a],
                ink,
                low,
                high,
            ) && shows(#[trigger] line[b], !ink, low, high) && shows(
                #[trigger] line[c],
                ink,
                low,
                high,
            ) && shows(line[d], !ink, low, high);
        let places = seq![a, b, c, d];
        assert(is_pattern(line, places, ink, low, high));
        let (start, end) = lemma_pattern_in_run(line, places, ink, low, high);
        assert(contour::is_complex_line(line, low, high, high_is_primary));
    } else if high - low > 48 && encloses(line, high_is_primary, low, high) {
        let (a, b, c) = choose|a: int, b: int, c: int|
            a < b < c && #[trigger] is_unbroken(line, a, c) && shows(
                line[a],
                !high_is_primary,
                low,
                high,
            ) && #[trigger] shows(line[b], high_is_primary, low, high) && shows(
                line[c],
                !high_is_primary,
                low,
                high,
            );
        let places = seq![a, b, c];
        assert(is_pattern(line, places, !high_is_primary, low, high));
        let (start, end) = lemma_pattern_in_run(line, places, !high_is_primary, low, high);
        assert(contour::is_complex_line(line, low, high, high_is_primary));
    }
}

/// A complex run makes a line busy.
proof fn lemma_complex_run_is_busy(
    line: Seq<Option<u8>>,
    start: int,
    end: int,
    low: int,
    high: int,
    high_is_primary: bool,
)
    requires
        contour::is_run(line, start, end),
        contour::is_complex_run(
            contour::inks_along(line.subrange(start, end), low, high),
            low,
            high,
            high_is_primary,
        ),
    ensures
        is_busy(line, low, high, high_is_primary),
{
    let stretch = line.subrange(start, end);
    let inks = contour::inks_along(stretch, low, high);
    let ink = inks.first();
    let places = lemma_pattern_found(stretch, low, high);
    assert forall|k: int| 0 <= k < places.len() implies stretch[#[trigger] places[k]]
        == line[places[k] + start] by {}
    let (a, b, c) = (places[0] + start, places[1] + start, places[2] + start);
    assert(shows(line[a], ink, low, high));
    assert(shows(line[b], !ink, low, high));
    assert(shows(line[c], ink, low, high));
    if contour::changes(inks) >= 3 {
        let d = places[3] + start;
        assert(shows(line[d], !ink, low, high));
        assert(is_unbroken(line, a, d));
        assert(goes_back_and_forth(line, low, high));
    } else {
        assert(is_unbroken(line, a, c));
        assert(encloses(line, high_is_primary, low, high));
    }
}

/// Whether more than a fifth of the rows with anything on them are busy, or more than a fifth of
/// such columns.
pub open spec fn are_busy(
    levels: Seq<Option<u8>>,
    width: int,
    height: int,
    low: int,
    high: int,
    high_is_primary: bool,
) -> bool {
    ||| 5 * sums::count_where(
        height,
        |y: int| is_busy(row(levels, width, y), low, high, high_is_primary),
    ) > sums::count_where(height, |y: int| is_drawn(row(levels, width, y)))
    ||| 5 * sums::count_where(
        width,
        |x: int| is_busy(column(levels, width, height, x), low, high, high_is_primary),
    ) > sums::count_where(width, |x: int| is_drawn(column(levels, width, height, x)))
}

/// Contours are complex exactly where more than a fifth of the rows with anything on them are
/// busy, or more than a fifth of such columns.
pub proof fn law_complex_contours_are_busy_lines(
    levels: Seq<Option<u8>>,
    width: int,
    height: int,
    low: int,
    high: int,
    high_is_primary: bool,
)
    ensures
        contour::has_complex_contours(levels, width, height, low, high, high_is_primary)
            <==> are_busy(levels, width, height, low, high, high_is_primary),
{
    lemma_rows(
        levels,
        width,
        height,
        low,
        high,
        high_is_primary,
        height,
        |y: int| is_busy(row(levels, width, y), low, high, high_is_primary),
        |y: int| is_drawn(row(levels, width, y)),
    );
    lemma_columns(
        levels,
        width,
        height,
        low,
        high,
        high_is_primary,
        width,
        |x: int| is_busy(column(levels, width, height, x), low, high, high_is_primary),
        |x: int| is_drawn(column(levels, width, height, x)),
    );
}

/// The first rows, counted.
proof fn lemma_rows(
    levels: Seq<Option<u8>>,
    width: int,
    height: int,
    low: int,
    high: int,
    high_is_primary: bool,
    n: int,
    busy: spec_fn(int) -> bool,
    drawn: spec_fn(int) -> bool,
)
    requires
        forall|y: int| #[trigger]
            busy(y) == is_busy(row(levels, width, y), low, high, high_is_primary),
        forall|y: int| #[trigger] drawn(y) == is_drawn(row(levels, width, y)),
    ensures
        contour::complex_lines(levels, width, height, false, low, high, high_is_primary, n)
            == sums::count_where(n, busy),
        contour::visible_lines(levels, width, height, false, n) == sums::count_where(n, drawn),
    decreases n,
{
    if n > 0 {
        lemma_rows(levels, width, height, low, high, high_is_primary, n - 1, busy, drawn);
        let line = contour::line_at(levels, width, height, false, n - 1);
        assert(line =~= row(levels, width, n - 1));
        law_complex_lines_are_busy(line, low, high, high_is_primary);
        assert(busy(n - 1) == is_busy(line, low, high, high_is_primary));
        assert(drawn(n - 1) == is_drawn(line));
    }
}

/// The first columns, counted.
proof fn lemma_columns(
    levels: Seq<Option<u8>>,
    width: int,
    height: int,
    low: int,
    high: int,
    high_is_primary: bool,
    n: int,
    busy: spec_fn(int) -> bool,
    drawn: spec_fn(int) -> bool,
)
    requires
        forall|x: int| #[trigger]
            busy(x) == is_busy(column(levels, width, height, x), low, high, high_is_primary),
        forall|x: int| #[trigger] drawn(x) == is_drawn(column(levels, width, height, x)),
    ensures
        contour::complex_lines(levels, width, height, true, low, high, high_is_primary, n)
            == sums::count_where(n, busy),
        contour::visible_lines(levels, width, height, true, n) == sums::count_where(n, drawn),
    decreases n,
{
    if n > 0 {
        lemma_columns(levels, width, height, low, high, high_is_primary, n - 1, busy, drawn);
        let line = contour::line_at(levels, width, height, true, n - 1);
        assert(line =~= column(levels, width, height, n - 1));
        law_complex_lines_are_busy(line, low, high, high_is_primary);
        assert(busy(n - 1) == is_busy(line, low, high, high_is_primary));
        assert(drawn(n - 1) == is_drawn(line));
    }
}

} // verus!

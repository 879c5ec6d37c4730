//! Contours: how often the two inks of an icon alternate along its rows and columns.

use vstd::prelude::*;

use crate::raster;
use crate::share;
use crate::tone;

verus! {

/// The largest distance between the inks at which one stroke around a shape is no border.
pub const MAX_SUBTLE_BORDER_SPAN: u8 = 48;

/// The share of visible lines, in percent, that may be complex.
pub const MAX_COMPLEX_SCANLINE_PERCENT: usize = 20;

/// The ink that a level is drawn in: `false` for the low one, `true` for the high one.
/// A level between the inks has none.
pub open spec fn ink_of(level: Option<u8>, low: int, high: int) -> Option<bool> {
    match level {
        Some(value) => if tone::is_close(value as int, low) {
            Some(false)
        } else if tone::is_close(value as int, high) {
            Some(true)
        } else {
            None
        },
        None => None,
    }
}

/// The inks along a stretch of levels, in order; levels without an ink are passed over.
pub open spec fn inks_along(stretch: Seq<Option<u8>>, low: int, high: int) -> Seq<bool>
    decreases stretch.len(),
{
    if stretch.len() == 0 {
        Seq::empty()
    } else {
        let before = inks_along(stretch.drop_last(), low, high);
        match ink_of(stretch.last(), low, high) {
            Some(ink) => before.push(ink),
            None => before,
        }
    }
}

/// How often an ink differs from the one before it.
pub open spec fn changes(inks: Seq<bool>) -> nat
    decreases inks.len(),
{
    if inks.len() < 2 {
        0
    } else {
        changes(inks.drop_last()) + if inks[inks.len() - 2] != inks.last() {
            1nat
        } else {
            0
        }
    }
}

/// Whether the inks of one unbroken run are more than a simple shape: they change three
/// times, or, where the inks are far apart, the secondary ink encloses the primary one.
pub open spec fn is_complex_run(
    inks: Seq<bool>,
    low: int,
    high: int,
    high_is_primary: bool,
) -> bool {
    ||| changes(inks) >= 3
    ||| {
        &&& high - low > MAX_SUBTLE_BORDER_SPAN
        &&& changes(inks) >= 2
        &&& inks.first() != high_is_primary
        &&& inks.last() == inks.first()
    }
}

/// `start..end` is a run of the line: it has no gap, and a gap or an end of the line on
/// either side.
pub open spec fn is_run(line: Seq<Option<u8>>, start: int, end: int) -> bool {
    &&& 0 <= start <= end <= line.len()
    &&& forall|i: int| start <= i < end ==> #[trigger] line[i] is Some
    &&& start == 0 || line[start - 1] is None
    &&& end == line.len() || line[end] is None
}

/// Whether anything is to be seen on a line.
pub open spec fn is_visible_line(line: Seq<Option<u8>>) -> bool {
    exists|i: int| 0 <= i < line.len() && #[trigger] line[i] is Some
}

/// Whether some run of a line is complex.
pub open spec fn is_complex_line(
    line: Seq<Option<u8>>,
    low: int,
    high: int,
    high_is_primary: bool,
) -> bool {
    exists|start: int, end: int| #[trigger]
        is_run(line, start, end) && is_complex_run(
            inks_along(line.subrange(start, end), low, high),
            low,
            high,
            high_is_primary,
        )
}

/// The number of lines along one axis of a grid: its columns or its rows.
pub open spec fn line_count(width: int, height: int, vertical: bool) -> int {
    if vertical {
        width
    } else {
        height
    }
}

/// Column or row number `k` of a grid of levels.
pub open spec fn line_at(
    levels: Seq<Option<u8>>,
    width: int,
    height: int,
    vertical: bool,
    k: int,
) -> Seq<Option<u8>> {
    if vertical {
        Seq::new(height as nat, |position: int| levels[raster::cell(k, position, width)])
    } else {
        Seq::new(width as nat, |position: int| levels[raster::cell(position, k, width)])
    }
}

/// How many of the first `n` lines are visible.
pub open spec fn visible_lines(
    levels: Seq<Option<u8>>,
    width: int,
    height: int,
    vertical: bool,
    n: int,
) -> nat
    decreases n,
{
    if n <= 0 {
        0
    } else {
        visible_lines(levels, width, height, vertical, n - 1) + if is_visible_line(
            line_at(levels, width, height, vertical, n - 1),
        ) {
            1nat
        } else {
            0
        }
    }
}

/// How many of the first `n` lines are complex.
pub open spec fn complex_lines(
    levels: Seq<Option<u8>>,
    width: int,
    height: int,
    vertical: bool,
    low: int,
    high: int,
    high_is_primary: bool,
    n: int,
) -> nat
    decreases n,
{
    if n <= 0 {
        0
    } else {
        complex_lines(levels, width, height, vertical, low, high, high_is_primary, n - 1)
            + if is_complex_line(
            line_at(levels, width, height, vertical, n - 1),
            low,
            high,
            high_is_primary,
        ) {
            1nat
        } else {
            0
        }
    }
}

/// Whether too large a share of the visible lines along one axis is complex.
pub open spec fn is_complex_axis(
    levels: Seq<Option<u8>>,
    width: int,
    height: int,
    vertical: bool,
    low: int,
    high: int,
    high_is_primary: bool,
) -> bool {
    let lines = line_count(width, height, vertical);
    complex_lines(levels, width, height, vertical, low, high, high_is_primary, lines) * 100
        > visible_lines(levels, width, height, vertical, lines) * MAX_COMPLEX_SCANLINE_PERCENT
}

/// Whether too large a share of the visible rows, or of the visible columns, is complex.
pub open spec fn has_complex_contours(
    levels: Seq<Option<u8>>,
    width: int,
    height: int,
    low: int,
    high: int,
    high_is_primary: bool,
) -> bool {
    ||| is_complex_axis(levels, width, height, false, low, high, high_is_primary)
    ||| is_complex_axis(levels, width, height, true, low, high, high_is_primary)
}

/// What is known of the run that a scan is in: its first ink, its latest ink, and how often
/// the ink changed on the way.
struct Run {
    first: Option<bool>,
    previous: Option<bool>,
    transitions: usize,
}

impl Run {
    /// The run summarises `inks`.
    spec fn follows(&self, inks: Seq<bool>) -> bool {
        &&& self.first == if inks.len() == 0 {
            None
        } else {
            Some(inks.first())
        }
        &&& self.previous == if inks.len() == 0 {
            None
        } else {
            Some(inks.last())
        }
        &&& self.transitions == changes(inks)
        &&& changes(inks) <= inks.len()
    }

    fn new() -> (run: Run)
        ensures
            run.follows(Seq::empty()),
    {
        Run { first: None, previous: None, transitions: 0 }
    }

    fn advance(&mut self, ink: bool, Ghost(inks): Ghost<Seq<bool>>)
        requires
            old(self).follows(inks),
            inks.len() < usize::MAX,
        ensures
            final(self).follows(inks.push(ink)),
    {
        proof {
            assert(inks.push(ink).drop_last() =~= inks);
        }
        if self.first.is_none() {
            self.first = Some(ink);
        }
        if let Some(last) = self.previous {
            if last != ink {
                self.transitions = self.transitions + 1;
            }
        }
        self.previous = Some(ink);
    }

    fn is_complex(
        &self,
        low: u8,
        high: u8,
        high_is_primary: bool,
        Ghost(inks): Ghost<Seq<bool>>,
    ) -> (complex: bool)
        requires
            self.follows(inks),
            low <= high,
        ensures
            complex == is_complex_run(inks, low as int, high as int, high_is_primary),
    {
        if self.transitions >= 3 {
            return true;
        }
        let marked: bool = high - low > MAX_SUBTLE_BORDER_SPAN;
        match (self.first, self.previous) {
            (Some(first), Some(previous)) => marked && self.transitions >= 2 && first
                != high_is_primary && previous == first,
            _ => false,
        }
    }
}

/// Looks along one line: whether anything is visible on it, and whether a run of it is complex.
fn scan_line(
    levels: &[Option<u8>],
    width: usize,
    height: usize,
    vertical: bool,
    k: usize,
    low: u8,
    high: u8,
    high_is_primary: bool,
) -> (found: (bool, bool))
    requires
        levels@.len() == width * height,
        k < line_count(width as int, height as int, vertical),
        low <= high,
    ensures
        found.0 == is_visible_line(
            line_at(levels@, width as int, height as int, vertical, k as int),
        ),
        found.1 == is_complex_line(
            line_at(levels@, width as int, height as int, vertical, k as int),
            low as int,
            high as int,
            high_is_primary,
        ),
{
    let length: usize = if vertical {
        height
    } else {
        width
    };
    let ghost line = line_at(levels@, width as int, height as int, vertical, k as int);
    let ghost mut start: int = 0;
    let mut run: Run = Run::new();
    let mut visible: bool = false;
    let mut complex: bool = false;
    let mut position: usize = 0;
    proof {
        assert(line.subrange(0, 0) =~= Seq::empty());
        assert(levels.len() <= usize::MAX);
    }
    while position < length
        invariant
            position <= length,
            levels@.len() == width * height <= usize::MAX,
            k < line_count(width as int, height as int, vertical),
            length == if vertical {
                height
            } else {
                width
            },
            low <= high,
            line == line_at(levels@, width as int, height as int, vertical, k as int),
            line.len() == length,
            0 <= start <= position,
            start == 0 || line[start - 1] is None,
            forall|i: int| start <= i < position ==> #[trigger] line[i] is Some,
            run.follows(inks_along(line.subrange(start, position as int), low as int, high as int)),
            inks_along(line.subrange(start, position as int), low as int, high as int).len()
                <= position - start,
            visible <==> exists|i: int| 0 <= i < position && #[trigger] line[i] is Some,
            complex <==> exists|a: int, b: int|
                b < position && #[trigger] is_run(line, a, b) && is_complex_run(
                    inks_along(line.subrange(a, b), low as int, high as int),
                    low as int,
                    high as int,
                    high_is_primary,
                ),
        decreases length - position,
    {
        let ghost stretch = line.subrange(start, position as int);
        let ghost inks = inks_along(stretch, low as int, high as int);
        proof {
            if vertical {
                raster::lemma_cell(k as int, position as int, width as int, height as int);
            } else {
                raster::lemma_cell(position as int, k as int, width as int, height as int);
            }
        }
        let index: usize = if vertical {
            position * width + k
        } else {
            k * width + position
        };
        let value: Option<u8> = levels[index];
        assert(value == line[position as int]);
        match value {
            None => {
                let ended: bool = run.is_complex(low, high, high_is_primary, Ghost(inks));
                proof {
                    assert(is_run(line, start, position as int));
                    lemma_run_start(line, start, position as int);
                    start = position + 1;
                    assert(line.subrange(start, position + 1) =~= Seq::empty());
                }
                complex = complex || ended;
                run = Run::new();
            },
            Some(level) => {
                visible = true;
                proof {
                    assert(line.subrange(start, position + 1) =~= stretch.push(value));
                    assert(stretch.push(value).drop_last() =~= stretch);
                    assert forall|a: int, b: int|
                        b < position + 1 && #[trigger] is_run(line, a, b) implies b < position by {}
                }
                if tone::close(level, low) {
                    run.advance(false, Ghost(inks));
                } else if tone::close(level, high) {
                    run.advance(true, Ghost(inks));
                }
            },
        }
        position += 1;
    }
    let ghost inks = inks_along(line.subrange(start, position as int), low as int, high as int);
    let ended: bool = run.is_complex(low, high, high_is_primary, Ghost(inks));
    proof {
        assert(is_run(line, start, position as int));
        lemma_run_start(line, start, position as int);
    }
    (visible, complex || ended)
}

/// A run that ends at a place has only one start.
proof fn lemma_run_start(line: Seq<Option<u8>>, start: int, end: int)
    requires
        is_run(line, start, end),
    ensures
        forall|a: int| #[trigger] is_run(line, a, end) ==> a == start,
{
    assert forall|a: int| #[trigger] is_run(line, a, end) implies a == start by {
        if a < start {
            assert(line[start - 1] is Some);
        } else if start < a {
            assert(line[a - 1] is Some);
        }
    }
}

/// Whether too large a share of the visible lines along one axis is complex.
fn complex_axis(
    levels: &[Option<u8>],
    width: usize,
    height: usize,
    vertical: bool,
    low: u8,
    high: u8,
    high_is_primary: bool,
) -> (complex: bool)
    requires
        levels@.len() == width * height,
        low <= high,
    ensures
        complex == is_complex_axis(
            levels@,
            width as int,
            height as int,
            vertical,
            low as int,
            high as int,
            high_is_primary,
        ),
{
    let lines: usize = if vertical {
        width
    } else {
        height
    };
    let mut visible_count: usize = 0;
    let mut complex_count: usize = 0;
    let mut k: usize = 0;
    while k < lines
        invariant
            k <= lines,
            lines == line_count(width as int, height as int, vertical),
            levels@.len() == width * height,
            low <= high,
            visible_count <= k,
            complex_count <= k,
            visible_count == visible_lines(
                levels@,
                width as int,
                height as int,
                vertical,
                k as int,
            ),
            complex_count == complex_lines(
                levels@,
                width as int,
                height as int,
                vertical,
                low as int,
                high as int,
                high_is_primary,
                k as int,
            ),
        decreases lines - k,
    {
        let (visible, complex): (bool, bool) = scan_line(
            levels,
            width,
            height,
            vertical,
            k,
            low,
            high,
            high_is_primary,
        );
        if visible {
            visible_count += 1;
        }
        if complex {
            complex_count += 1;
        }
        k += 1;
    }
    !share::is_at_most(complex_count, visible_count, MAX_COMPLEX_SCANLINE_PERCENT)
}

/// Whether the two inks alternate too often to be two plain tones: along too large a share
/// of the visible rows, or of the visible columns.
pub fn complex_contours(
    width: usize,
    height: usize,
    levels: &[Option<u8>],
    low: u8,
    high: u8,
    high_is_primary: bool,
) -> (complex: bool)
    requires
        levels@.len() == width * height,
        low <= high,
    ensures
        complex == has_complex_contours(
            levels@,
            width as int,
            height as int,
            low as int,
            high as int,
            high_is_primary,
        ),
{
    complex_axis(levels, width, height, false, low, high, high_is_primary) || complex_axis(
        levels,
        width,
        height,
        true,
        low,
        high,
        high_is_primary,
    )
}

} // verus!

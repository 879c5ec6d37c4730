//! Transparent padding: what is decided on an icon does not change when it is set in a larger
//! grid with nothing visible around it.

use vstd::prelude::*;

use crate::badge;
use crate::badge::Rect;
use crate::contour;
use crate::decision::Verdict;
use crate::laws;
use crate::paint;
use crate::palette;
use crate::raster;
use crate::raster::{Pixel, RgbaImage};
use crate::sums;
use crate::theme::ThemeContext;
use crate::tone;

verus! {

/// A grid, and the place of a smaller grid in it.
pub struct Frame {
    pub width: int,
    pub height: int,
    pub left: int,
    pub top: int,
    pub inner_width: int,
    pub inner_height: int,
}

impl Frame {
    /// The smaller grid has a cell and lies in the larger one.
    pub open spec fn is_valid(self) -> bool {
        &&& 0 < self.inner_width
        &&& 0 < self.inner_height
        &&& 0 <= self.left && self.left + self.inner_width <= self.width
        &&& 0 <= self.top && self.top + self.inner_height <= self.height
    }

    /// Whether a cell of the larger grid is one of the smaller grid.
    pub open spec fn holds(self, x: int, y: int) -> bool {
        &&& self.left <= x < self.left + self.inner_width
        &&& self.top <= y < self.top + self.inner_height
    }

    /// Where a cell of the larger grid stands there.
    pub open spec fn outer(self, x: int, y: int) -> int {
        raster::cell(x, y, self.width)
    }

    /// Where a cell of the larger grid stands in the smaller one.
    pub open spec fn inner(self, x: int, y: int) -> int {
        raster::cell(x - self.left, y - self.top, self.inner_width)
    }
}

/// `outer` holds the values of `inner` in their place, and `blank` all around.
pub open spec fn is_framed<A>(frame: Frame, inner: Seq<A>, outer: Seq<A>, blank: A) -> bool {
    &&& inner.len() == frame.inner_width * frame.inner_height
    &&& outer.len() == frame.width * frame.height
    &&& forall|x: int, y: int|
        0 <= x < frame.width && 0 <= y < frame.height ==> outer[#[trigger] frame.outer(x, y)]
            == if frame.holds(x, y) {
            inner[frame.inner(x, y)]
        } else {
            blank
        }
}

/// How many cells of the smaller grid come before the cell `x`, `y` of the larger one.
spec fn cells_before(frame: Frame, x: int, y: int) -> int {
    if y < frame.top {
        0
    } else if y >= frame.top + frame.inner_height {
        frame.inner_width * frame.inner_height
    } else {
        (y - frame.top) * frame.inner_width + vstd::math::min(
            vstd::math::max(x - frame.left, 0),
            frame.inner_width,
        )
    }
}

/// A cell of the smaller grid has a place in both.
proof fn lemma_frame_cell(frame: Frame, x: int, y: int)
    requires
        frame.is_valid(),
        0 <= x < frame.width,
        0 <= y < frame.height,
    ensures
        0 <= frame.outer(x, y) < frame.width * frame.height,
        frame.outer(x, y) % frame.width == x,
        frame.outer(x, y) / frame.width == y,
        frame.holds(x, y) ==> {
            &&& 0 <= frame.inner(x, y) < frame.inner_width * frame.inner_height
            &&& frame.inner(x, y) % frame.inner_width == x - frame.left
            &&& frame.inner(x, y) / frame.inner_width == y - frame.top
        },
{
    raster::lemma_cell(x, y, frame.width, frame.height);
    if frame.holds(x, y) {
        raster::lemma_cell(
            x - frame.left,
            y - frame.top,
            frame.inner_width,
            frame.inner_height,
        );
    }
}

/// Up to any cell, a frame of zeros adds nothing to the sum.
proof fn lemma_framed_prefix(frame: Frame, inner: Seq<nat>, outer: Seq<nat>, x: int, y: int)
    requires
        frame.is_valid(),
        is_framed(frame, inner, outer, 0),
        0 <= x <= frame.width,
        0 <= y <= frame.height,
        y == frame.height ==> x == 0,
    ensures
        0 <= frame.outer(x, y) <= outer.len(),
        0 <= cells_before(frame, x, y) <= inner.len(),
        sums::sum_of(outer.take(frame.outer(x, y))) == sums::sum_of(inner.take(cells_before(frame, x, y))),
    decreases y, x,
{
    let (w, h) = (frame.inner_width, frame.inner_height);
    if x > 0 {
        lemma_framed_prefix(frame, inner, outer, x - 1, y);
        lemma_frame_cell(frame, x - 1, y);
        let n = frame.outer(x - 1, y);
        assert(outer.take(n + 1).drop_last() =~= outer.take(n));
        if frame.holds(x - 1, y) {
            let m = frame.inner(x - 1, y);
            assert(m == cells_before(frame, x - 1, y));
            assert(cells_before(frame, x, y) == m + 1);
            assert(inner.take(m + 1).drop_last() =~= inner.take(m));
        } else {
            assert(cells_before(frame, x, y) == cells_before(frame, x - 1, y));
        }
    } else if y > 0 {
        lemma_framed_prefix(frame, inner, outer, frame.width, y - 1);
        assert((y - 1) * frame.width + frame.width == y * frame.width) by (nonlinear_arith);
        assert((y - 1 - frame.top) * w + w == (y - frame.top) * w) by (nonlinear_arith);
        assert(h * w == w * h) by (nonlinear_arith);
        assert(cells_before(frame, 0, y) == cells_before(frame, frame.width, y - 1));
    } else {
        assert(outer.take(0) =~= Seq::empty());
        assert(0 * w == 0 && 0 * frame.width == 0);
        assert(0 <= w * h) by (nonlinear_arith)
            requires
                0 < w,
                0 < h,
        ;
        assert(inner.take(0) =~= Seq::empty());
    }
}

/// A frame of zeros adds nothing to a sum.
proof fn lemma_framed_sum(frame: Frame, inner: Seq<nat>, outer: Seq<nat>)
    requires
        frame.is_valid(),
        is_framed(frame, inner, outer, 0),
    ensures
        sums::sum_of(outer) == sums::sum_of(inner),
{
    lemma_framed_prefix(frame, inner, outer, 0, frame.height);
    assert(frame.height * frame.width == frame.width * frame.height) by (nonlinear_arith);
    assert(outer.take(frame.outer(0, frame.height)) =~= outer);
    assert(inner.take(cells_before(frame, 0, frame.height)) =~= inner);
}

/// Padding has no mass.
proof fn lemma_framed_mass(
    frame: Frame,
    inner: Seq<Option<Pixel>>,
    outer: Seq<Option<Pixel>>,
    low: int,
    high: int,
)
    requires
        frame.is_valid(),
        is_framed(frame, inner, outer, None),
    ensures
        tone::mass(outer, low, high) == tone::mass(inner, low, high),
{
    sums::lemma_mass_is_sum(inner, low, high);
    sums::lemma_mass_is_sum(outer, low, high);
    let (a, b) = (sums::weights_of(inner, low, high), sums::weights_of(outer, low, high));
    assert forall|x: int, y: int| 0 <= x < frame.width && 0 <= y < frame.height implies b[
    #[trigger] frame.outer(x, y)] == if frame.holds(x, y) {
        a[frame.inner(x, y)]
    } else {
        0
    } by {
        lemma_frame_cell(frame, x, y);
    }
    lemma_framed_sum(frame, a, b);
}

/// Padding has no marks.
proof fn lemma_framed_count(frame: Frame, inner: Seq<bool>, outer: Seq<bool>)
    requires
        frame.is_valid(),
        is_framed(frame, inner, outer, false),
    ensures
        badge::count(outer) == badge::count(inner),
{
    sums::lemma_count_is_sum(inner);
    sums::lemma_count_is_sum(outer);
    let (a, b) = (sums::ones_of(inner), sums::ones_of(outer));
    assert forall|x: int, y: int| 0 <= x < frame.width && 0 <= y < frame.height implies b[
    #[trigger] frame.outer(x, y)] == if frame.holds(x, y) {
        a[frame.inner(x, y)]
    } else {
        0
    } by {
        lemma_frame_cell(frame, x, y);
    }
    lemma_framed_sum(frame, a, b);
}

/// What stands at a place of the larger grid that is no padding stands in the smaller one.
proof fn lemma_framed_at<A>(
    frame: Frame,
    inner: Seq<A>,
    outer: Seq<A>,
    blank: A,
    i: int,
)
    requires
        frame.is_valid(),
        is_framed(frame, inner, outer, blank),
        0 <= i < outer.len(),
    ensures
        ({
            let (x, y) = (i % frame.width, i / frame.width);
            &&& 0 <= x < frame.width
            &&& 0 <= y < frame.height
            &&& i == frame.outer(x, y)
            &&& outer[i] == if frame.holds(x, y) {
                inner[frame.inner(x, y)]
            } else {
                blank
            }
            &&& frame.holds(x, y) ==> 0 <= frame.inner(x, y) < inner.len()
        }),
{
    raster::lemma_position(i, frame.width, frame.height);
    lemma_frame_cell(frame, i % frame.width, i / frame.width);
}

/// What stands in the smaller grid stands in the larger one too.
proof fn lemma_inner_at<A>(
    frame: Frame,
    inner: Seq<A>,
    outer: Seq<A>,
    blank: A,
    i: int,
)
    requires
        frame.is_valid(),
        is_framed(frame, inner, outer, blank),
        0 <= i < inner.len(),
    ensures
        ({
            let x = i % frame.inner_width + frame.left;
            let y = i / frame.inner_width + frame.top;
            &&& frame.holds(x, y)
            &&& i == frame.inner(x, y)
            &&& 0 <= frame.outer(x, y) < outer.len()
            &&& outer[frame.outer(x, y)] == inner[i]
        }),
{
    raster::lemma_position(i, frame.inner_width, frame.inner_height);
    lemma_frame_cell(
        frame,
        i % frame.inner_width + frame.left,
        i / frame.inner_width + frame.top,
    );
}

/// Padding has no tones.
proof fn lemma_framed_tones(frame: Frame, inner: Seq<Option<Pixel>>, outer: Seq<Option<Pixel>>)
    requires
        frame.is_valid(),
        is_framed(frame, inner, outer, None),
    ensures
        tone::lowest_tone(outer) == tone::lowest_tone(inner),
        tone::highest_tone(outer) == tone::highest_tone(inner),
{
    tone::lemma_lowest_tone(inner);
    tone::lemma_lowest_tone(outer);
    tone::lemma_highest_tone(inner);
    tone::lemma_highest_tone(outer);
    assert forall|i: int| 0 <= i < inner.len() implies exists|j: int|
        0 <= j < outer.len() && outer[j] == #[trigger] inner[i] by {
        lemma_inner_at(frame, inner, outer, None, i);
    }
    assert forall|j: int| 0 <= j < outer.len() && #[trigger] outer[j] is Some implies exists|i: int|
        0 <= i < inner.len() && #[trigger] inner[i] == outer[j] by {
        lemma_framed_at(frame, inner, outer, None, j);
    }
}

/// Cells of the larger grid are near each other as their columns and rows say; so are those of
/// the smaller grid.
proof fn lemma_near_cells(frame: Frame, x: int, y: int, column: int, row: int, radius: int)
    requires
        frame.is_valid(),
        0 <= x < frame.width,
        0 <= y < frame.height,
        0 <= column < frame.width,
        0 <= row < frame.height,
    ensures
        palette::is_near(
            frame.outer(x, y),
            frame.outer(column, row),
            frame.width,
            frame.height,
            radius,
        ) <==> -radius <= column - x <= radius && -radius <= row - y <= radius,
        frame.holds(x, y) && frame.holds(column, row) ==> (palette::is_near(
            frame.inner(x, y),
            frame.inner(column, row),
            frame.inner_width,
            frame.inner_height,
            radius,
        ) <==> -radius <= column - x <= radius && -radius <= row - y <= radius),
{
    lemma_frame_cell(frame, x, y);
    lemma_frame_cell(frame, column, row);
}

/// Padding makes no area solid that was not, and leaves solid areas solid.
proof fn lemma_framed_solid_cell(
    frame: Frame,
    inner: Seq<Option<Pixel>>,
    outer: Seq<Option<Pixel>>,
    x: int,
    y: int,
)
    requires
        frame.is_valid(),
        is_framed(frame, inner, outer, None),
        frame.holds(x, y),
    ensures
        palette::is_solid(outer, frame.width, frame.height, frame.outer(x, y))
            <==> palette::is_solid(
            inner,
            frame.inner_width,
            frame.inner_height,
            frame.inner(x, y),
        ),
{
    let (w, h) = (frame.inner_width, frame.inner_height);
    let (i, o) = (frame.inner(x, y), frame.outer(x, y));
    lemma_frame_cell(frame, x, y);
    if palette::is_solid(outer, frame.width, frame.height, o) {
        assert forall|column: int, row: int|
            -1 <= column - x <= 1 && -1 <= row - y <= 1 implies #[trigger] frame.holds(column, row)
            by {
            lemma_near_cells(frame, x, y, column, row, 1);
            assert(palette::is_near(o, frame.outer(column, row), frame.width, frame.height, 1));
        }
        assert(frame.holds(x - 1, y) && frame.holds(x + 1, y));
        assert(frame.holds(x, y - 1) && frame.holds(x, y + 1));
        assert forall|j: int| #[trigger] palette::is_near(i, j, w, h, 1) implies (
        inner[j] matches Some(other) && tone::is_close(
            tone::tone_of(other),
            tone::tone_of(inner[i]->0),
        )) by {
            lemma_inner_at(frame, inner, outer, None, j);
            let column = j % w + frame.left;
            let row = j / w + frame.top;
            lemma_near_cells(frame, x, y, column, row, 1);
            assert(palette::is_near(o, frame.outer(column, row), frame.width, frame.height, 1));
        }
    }
    if palette::is_solid(inner, w, h, i) {
        assert forall|j: int| #[trigger]
            palette::is_near(o, j, frame.width, frame.height, 1) implies (
        outer[j] matches Some(other) && tone::is_close(
            tone::tone_of(other),
            tone::tone_of(outer[o]->0),
        )) by {
            lemma_framed_at(frame, inner, outer, None, j);
            let (column, row) = (j % frame.width, j / frame.width);
            lemma_near_cells(frame, x, y, column, row, 1);
            assert(frame.holds(column, row));
            assert(palette::is_near(i, frame.inner(column, row), w, h, 1));
        }
    }
}

/// Padding makes no tone reachable that was not, and leaves reachable tones reachable.
proof fn lemma_framed_reach_cell(
    frame: Frame,
    inner: Seq<Option<Pixel>>,
    outer: Seq<Option<Pixel>>,
    x: int,
    y: int,
    t: int,
)
    requires
        frame.is_valid(),
        is_framed(frame, inner, outer, None),
        frame.holds(x, y),
    ensures
        palette::reaches_tone(outer, frame.width, frame.height, frame.outer(x, y), t)
            <==> palette::reaches_tone(
            inner,
            frame.inner_width,
            frame.inner_height,
            frame.inner(x, y),
            t,
        ),
{
    let (w, h) = (frame.inner_width, frame.inner_height);
    let (i, o) = (frame.inner(x, y), frame.outer(x, y));
    let radius = palette::ANTIALIAS_RADIUS as int;
    if palette::reaches_tone(outer, frame.width, frame.height, o, t) {
        let j = choose|j: int| #[trigger]
            palette::is_near(o, j, frame.width, frame.height, radius) && (
            outer[j] matches Some(other) && tone::is_close(tone::tone_of(other), t));
        lemma_framed_at(frame, inner, outer, None, j);
        let (column, row) = (j % frame.width, j / frame.width);
        lemma_near_cells(frame, x, y, column, row, radius);
        assert(palette::is_near(i, frame.inner(column, row), w, h, radius));
    }
    if palette::reaches_tone(inner, w, h, i, t) {
        let j = choose|j: int| #[trigger]
            palette::is_near(i, j, w, h, radius) && (inner[j] matches Some(other)
                && tone::is_close(tone::tone_of(other), t));
        lemma_inner_at(frame, inner, outer, None, j);
        let (column, row) = (j % w + frame.left, j / w + frame.top);
        lemma_near_cells(frame, x, y, column, row, radius);
        assert(palette::is_near(o, frame.outer(column, row), frame.width, frame.height, radius));
    }
}

/// An edge reaches beyond a grid exactly where, padded, it reaches the padding or beyond it.
proof fn lemma_framed_gap_cell(
    frame: Frame,
    inner: Seq<Option<Pixel>>,
    outer: Seq<Option<Pixel>>,
    x: int,
    y: int,
)
    requires
        frame.is_valid(),
        is_framed(frame, inner, outer, None),
        frame.holds(x, y),
    ensures
        palette::reaches_gap(outer, frame.width, frame.height, frame.outer(x, y))
            <==> palette::reaches_gap(
            inner,
            frame.inner_width,
            frame.inner_height,
            frame.inner(x, y),
        ),
{
    let (w, h) = (frame.inner_width, frame.inner_height);
    let (i, o) = (frame.inner(x, y), frame.outer(x, y));
    let radius = palette::ANTIALIAS_RADIUS as int;
    lemma_frame_cell(frame, x, y);
    if palette::reaches_gap(outer, frame.width, frame.height, o) {
        if !palette::is_at_border(frame.width, frame.height, o) {
            let j = choose|j: int| #[trigger]
                palette::is_near(o, j, frame.width, frame.height, radius) && outer[j] is None;
            lemma_framed_at(frame, inner, outer, None, j);
            let (column, row) = (j % frame.width, j / frame.width);
            lemma_near_cells(frame, x, y, column, row, radius);
            if frame.holds(column, row) {
                assert(palette::is_near(i, frame.inner(column, row), w, h, radius));
            }
        }
    }
    if palette::reaches_gap(inner, w, h, i) {
        if palette::is_at_border(w, h, i) {
            if !palette::is_at_border(frame.width, frame.height, o) {
                let (column, row) = if i % w < radius {
                    (x - radius, y)
                } else if i / w < radius {
                    (x, y - radius)
                } else if w - 1 - i % w < radius {
                    (x + radius, y)
                } else {
                    (x, y + radius)
                };
                lemma_near_cells(frame, x, y, column, row, radius);
                lemma_frame_cell(frame, column, row);
                assert(!frame.holds(column, row));
                assert(palette::is_near(
                    o,
                    frame.outer(column, row),
                    frame.width,
                    frame.height,
                    radius,
                ));
            }
        } else {
            let j = choose|j: int| #[trigger]
                palette::is_near(i, j, w, h, radius) && inner[j] is None;
            lemma_inner_at(frame, inner, outer, None, j);
            let (column, row) = (j % w + frame.left, j / w + frame.top);
            lemma_near_cells(frame, x, y, column, row, radius);
            assert(palette::is_near(
                o,
                frame.outer(column, row),
                frame.width,
                frame.height,
                radius,
            ));
        }
    }
}

/// Padding leaves the palette of the solid areas what it was.
proof fn lemma_framed_palette(frame: Frame, inner: Seq<Option<Pixel>>, outer: Seq<Option<Pixel>>)
    requires
        frame.is_valid(),
        is_framed(frame, inner, outer, None),
    ensures
        palette::solid_palette(outer, frame.width, frame.height) == palette::solid_palette(
            inner,
            frame.inner_width,
            frame.inner_height,
        ),
{
    let (w, h) = (frame.inner_width, frame.inner_height);
    let inner_solid = palette::solid_only(inner, w, h);
    let outer_solid = palette::solid_only(outer, frame.width, frame.height);
    assert forall|x: int, y: int| 0 <= x < frame.width && 0 <= y < frame.height implies outer_solid[
    #[trigger] frame.outer(x, y)] == if frame.holds(x, y) {
        inner_solid[frame.inner(x, y)]
    } else {
        None
    } by {
        lemma_frame_cell(frame, x, y);
        if frame.holds(x, y) {
            lemma_framed_solid_cell(frame, inner, outer, x, y);
        }
    }
    assert(is_framed(frame, inner_solid, outer_solid, None));
    lemma_framed_tones(frame, inner_solid, outer_solid);
    if tone::lowest_tone(inner_solid) is Some && tone::highest_tone(inner_solid) is Some {
        let low = tone::lowest_tone(inner_solid)->0;
        let high = tone::highest_tone(inner_solid)->0;
        lemma_framed_mass(frame, inner_solid, outer_solid, 0, 255);
        lemma_framed_inked(frame, inner_solid, outer_solid, low, high);
        lemma_framed_supported(frame, inner, outer, low, high);
        lemma_framed_mass(frame, inner, outer, 0, 255);
        let tolerance = tone::TONE_TOLERANCE as int;
        lemma_framed_mass(frame, inner, outer, low - tolerance, low + tolerance);
        lemma_framed_mass(frame, inner, outer, high - tolerance, high + tolerance);
    }
}

/// Padding has no mass close to an ink.
proof fn lemma_framed_inked(
    frame: Frame,
    inner: Seq<Option<Pixel>>,
    outer: Seq<Option<Pixel>>,
    low: int,
    high: int,
)
    requires
        frame.is_valid(),
        is_framed(frame, inner, outer, None),
    ensures
        tone::mass(palette::inked_only(outer, low, high), 0, 255) == tone::mass(
            palette::inked_only(inner, low, high),
            0,
            255,
        ),
{
    let (a, b) = (palette::inked_only(inner, low, high), palette::inked_only(outer, low, high));
    assert forall|x: int, y: int| 0 <= x < frame.width && 0 <= y < frame.height implies b[
    #[trigger] frame.outer(x, y)] == if frame.holds(x, y) {
        a[frame.inner(x, y)]
    } else {
        None
    } by {
        lemma_frame_cell(frame, x, y);
    }
    lemma_framed_mass(frame, a, b, 0, 255);
}

/// Padding leaves the mass that two inks explain what it was.
proof fn lemma_framed_supported(
    frame: Frame,
    inner: Seq<Option<Pixel>>,
    outer: Seq<Option<Pixel>>,
    low: int,
    high: int,
)
    requires
        frame.is_valid(),
        is_framed(frame, inner, outer, None),
    ensures
        tone::mass(
            palette::supported_only(outer, frame.width, frame.height, low, high),
            0,
            255,
        ) == tone::mass(
            palette::supported_only(inner, frame.inner_width, frame.inner_height, low, high),
            0,
            255,
        ),
{
    let a = palette::supported_only(inner, frame.inner_width, frame.inner_height, low, high);
    let b = palette::supported_only(outer, frame.width, frame.height, low, high);
    assert forall|x: int, y: int| 0 <= x < frame.width && 0 <= y < frame.height implies b[
    #[trigger] frame.outer(x, y)] == if frame.holds(x, y) {
        a[frame.inner(x, y)]
    } else {
        None
    } by {
        lemma_frame_cell(frame, x, y);
        if frame.holds(x, y) {
            lemma_framed_reach_cell(frame, inner, outer, x, y, low);
            lemma_framed_reach_cell(frame, inner, outer, x, y, high);
            lemma_framed_gap_cell(frame, inner, outer, x, y);
        }
    }
    lemma_framed_mass(frame, a, b, 0, 255);
}

/// `outer` is the line `inner`, `shift` places on, with gaps on both sides.
spec fn is_framed_line(inner: Seq<Option<u8>>, outer: Seq<Option<u8>>, shift: int) -> bool {
    &&& 0 <= shift
    &&& shift + inner.len() <= outer.len()
    &&& forall|i: int|
        0 <= i < outer.len() ==> #[trigger] outer[i] == if shift <= i < shift + inner.len() {
            inner[i - shift]
        } else {
            None
        }
}

/// Gaps at its ends make a line neither visible nor complex.
proof fn lemma_framed_line(
    inner: Seq<Option<u8>>,
    outer: Seq<Option<u8>>,
    shift: int,
    low: int,
    high: int,
    high_is_primary: bool,
)
    requires
        is_framed_line(inner, outer, shift),
    ensures
        contour::is_visible_line(outer) == contour::is_visible_line(inner),
        contour::is_complex_line(outer, low, high, high_is_primary) == contour::is_complex_line(
            inner,
            low,
            high,
            high_is_primary,
        ),
{
    if contour::is_visible_line(inner) {
        let i = choose|i: int| 0 <= i < inner.len() && #[trigger] inner[i] is Some;
        assert(outer[i + shift] is Some);
    }
    if contour::is_complex_line(inner, low, high, high_is_primary) {
        let (start, end) = choose|start: int, end: int| #[trigger]
            contour::is_run(inner, start, end) && contour::is_complex_run(
                contour::inks_along(inner.subrange(start, end), low, high),
                low,
                high,
                high_is_primary,
            );
        assert(outer.subrange(start + shift, end + shift) =~= inner.subrange(start, end));
        assert(contour::is_run(outer, start + shift, end + shift));
    }
    if contour::is_complex_line(outer, low, high, high_is_primary) {
        let (start, end) = choose|start: int, end: int| #[trigger]
            contour::is_run(outer, start, end) && contour::is_complex_run(
                contour::inks_along(outer.subrange(start, end), low, high),
                low,
                high,
                high_is_primary,
            );
        assert(start < end) by {
            if start == end {
                assert(outer.subrange(start, end) =~= Seq::empty());
            }
        }
        assert(outer[start] is Some && outer[end - 1] is Some);
        assert(outer.subrange(start, end) =~= inner.subrange(start - shift, end - shift));
        assert forall|i: int| start - shift <= i < end - shift implies #[trigger] inner[i] is Some by {
            assert(outer[i + shift] is Some);
        }
        if start - shift > 0 {
            assert(outer[start - 1] is None);
        }
        if end - shift < inner.len() {
            assert(outer[end] is None);
        }
        assert(contour::is_run(inner, start - shift, end - shift));
    }
}

/// Lines of padding are neither visible nor complex, and other lines are what they were.
proof fn lemma_framed_lines(
    frame: Frame,
    inner: Seq<Option<u8>>,
    outer: Seq<Option<u8>>,
    vertical: bool,
    low: int,
    high: int,
    high_is_primary: bool,
    n: int,
)
    requires
        frame.is_valid(),
        is_framed(frame, inner, outer, None),
        0 <= n <= contour::line_count(frame.width, frame.height, vertical),
    ensures
        ({
            let first = if vertical {
                frame.left
            } else {
                frame.top
            };
            let m = vstd::math::min(
                vstd::math::max(n - first, 0),
                contour::line_count(frame.inner_width, frame.inner_height, vertical),
            );
            &&& contour::visible_lines(outer, frame.width, frame.height, vertical, n)
                == contour::visible_lines(
                inner,
                frame.inner_width,
                frame.inner_height,
                vertical,
                m,
            )
            &&& contour::complex_lines(
                outer,
                frame.width,
                frame.height,
                vertical,
                low,
                high,
                high_is_primary,
                n,
            ) == contour::complex_lines(
                inner,
                frame.inner_width,
                frame.inner_height,
                vertical,
                low,
                high,
                high_is_primary,
                m,
            )
        }),
    decreases n,
{
    if n > 0 {
        lemma_framed_lines(frame, inner, outer, vertical, low, high, high_is_primary, n - 1);
        let first = if vertical {
            frame.left
        } else {
            frame.top
        };
        let shift = if vertical {
            frame.top
        } else {
            frame.left
        };
        let lines = contour::line_count(frame.inner_width, frame.inner_height, vertical);
        let k = n - 1;
        let outer_line = contour::line_at(outer, frame.width, frame.height, vertical, k);
        let inner_line = if first <= k < first + lines {
            contour::line_at(
                inner,
                frame.inner_width,
                frame.inner_height,
                vertical,
                k - first,
            )
        } else {
            Seq::empty()
        };
        assert forall|i: int| 0 <= i < outer_line.len() implies #[trigger] outer_line[i]
            == if shift <= i < shift + inner_line.len() {
            inner_line[i - shift]
        } else {
            None
        } by {
            if vertical {
                assert(frame.outer(k, i) == raster::cell(k, i, frame.width));
            } else {
                assert(frame.outer(i, k) == raster::cell(i, k, frame.width));
            }
        }
        lemma_framed_line(inner_line, outer_line, shift, low, high, high_is_primary);
        if !(first <= k < first + lines) {
            assert(!contour::is_visible_line(inner_line));
            assert(!contour::is_complex_line(inner_line, low, high, high_is_primary)) by {
                if contour::is_complex_line(inner_line, low, high, high_is_primary) {
                    let (start, end) = choose|start: int, end: int| #[trigger]
                        contour::is_run(inner_line, start, end) && contour::is_complex_run(
                            contour::inks_along(inner_line.subrange(start, end), low, high),
                            low,
                            high,
                            high_is_primary,
                        );
                    assert(inner_line.subrange(start, end) =~= Seq::empty());
                }
            }
        }
    }
}

/// Transparent padding does not dilute the guard against contours: it makes no contours
/// complex, and none simple.
pub proof fn law_padding_keeps_contours(
    frame: Frame,
    inner: Seq<Option<u8>>,
    outer: Seq<Option<u8>>,
    low: int,
    high: int,
    high_is_primary: bool,
)
    requires
        frame.is_valid(),
        is_framed(frame, inner, outer, None),
    ensures
        contour::has_complex_contours(
            outer,
            frame.width,
            frame.height,
            low,
            high,
            high_is_primary,
        ) <==> contour::has_complex_contours(
            inner,
            frame.inner_width,
            frame.inner_height,
            low,
            high,
            high_is_primary,
        ),
{
    lemma_framed_lines(
        frame,
        inner,
        outer,
        false,
        low,
        high,
        high_is_primary,
        frame.height,
    );
    lemma_framed_lines(frame, inner, outer, true, low, high, high_is_primary, frame.width);
}

/// Padding leaves the decision on samples what it was.
proof fn lemma_framed_judgement(frame: Frame, inner: Seq<Option<Pixel>>, outer: Seq<Option<Pixel>>)
    requires
        frame.is_valid(),
        is_framed(frame, inner, outer, None),
    ensures
        paint::judge(outer, frame.width, frame.height) == paint::judge(
            inner,
            frame.inner_width,
            frame.inner_height,
        ),
{
    assert(paint::has_colour(outer) == paint::has_colour(inner)) by {
        if paint::has_colour(outer) {
            let j = choose|j: int|
                0 <= j < outer.len() && (#[trigger] outer[j] matches Some(pixel)
                    && tone::is_coloured(pixel));
            lemma_framed_at(frame, inner, outer, None, j);
            assert(inner[frame.inner(j % frame.width, j / frame.width)] is Some);
        }
        if paint::has_colour(inner) {
            let i = choose|i: int|
                0 <= i < inner.len() && (#[trigger] inner[i] matches Some(pixel)
                    && tone::is_coloured(pixel));
            lemma_inner_at(frame, inner, outer, None, i);
            assert(outer[frame.outer(
                i % frame.inner_width + frame.left,
                i / frame.inner_width + frame.top,
            )] is Some);
        }
    }
    lemma_framed_tones(frame, inner, outer);
    if tone::lowest_tone(inner) is Some && tone::highest_tone(inner) is Some {
        let low = tone::lowest_tone(inner)->0;
        let high = tone::highest_tone(inner)->0;
        let tolerance = tone::TONE_TOLERANCE as int;
        lemma_framed_mass(frame, inner, outer, low, low + tolerance);
        lemma_framed_mass(frame, inner, outer, high - tolerance, high);
        lemma_framed_mass(frame, inner, outer, 0, 255);
        let high_is_primary = tone::mass(inner, high - tolerance, high) >= tone::mass(
            inner,
            low,
            low + tolerance,
        );
        let (a, b) = (paint::levels_of(inner), paint::levels_of(outer));
        assert forall|x: int, y: int| 0 <= x < frame.width && 0 <= y < frame.height implies b[
        #[trigger] frame.outer(x, y)] == if frame.holds(x, y) {
            a[frame.inner(x, y)]
        } else {
            None
        } by {
            lemma_frame_cell(frame, x, y);
        }
        law_padding_keeps_contours(frame, a, b, low, high, high_is_primary);
        lemma_framed_palette(frame, inner, outer);
    }
}

/// A rectangle of the smaller grid, in the larger one.
spec fn moved(frame: Frame, area: Rect) -> Rect {
    Rect {
        min_x: area.min_x + frame.left,
        min_y: area.min_y + frame.top,
        max_x: area.max_x + frame.left,
        max_y: area.max_y + frame.top,
    }
}

/// The box around the marks moves with them.
proof fn lemma_framed_box(frame: Frame, inner: Seq<bool>, outer: Seq<bool>, area: Rect)
    requires
        frame.is_valid(),
        is_framed(frame, inner, outer, false),
        badge::is_box(inner, frame.inner_width, area),
    ensures
        badge::is_box(outer, frame.width, moved(frame, area)),
{
    let w = frame.inner_width;
    assert forall|j: int| 0 <= j < outer.len() && #[trigger] outer[j] implies moved(
        frame,
        area,
    ).min_x <= j % frame.width <= moved(frame, area).max_x && moved(frame, area).min_y <= j
        / frame.width <= moved(frame, area).max_y by {
        lemma_framed_at(frame, inner, outer, false, j);
        let (x, y) = (j % frame.width, j / frame.width);
        lemma_frame_cell(frame, x, y);
        assert(inner[frame.inner(x, y)]);
    }
    assert forall|i: int| 0 <= i < inner.len() && #[trigger] inner[i] implies exists|j: int|
        0 <= j < outer.len() && #[trigger] outer[j] && j % frame.width == i % w + frame.left && j
            / frame.width == i / w + frame.top by {
        lemma_inner_at(frame, inner, outer, false, i);
        let (x, y) = (i % w + frame.left, i / w + frame.top);
        lemma_frame_cell(frame, x, y);
        assert(outer[frame.outer(x, y)]);
    }
    let a = choose|i: int| 0 <= i < inner.len() && #[trigger] inner[i] && i % w == area.min_x;
    let b = choose|i: int| 0 <= i < inner.len() && #[trigger] inner[i] && i % w == area.max_x;
    let c = choose|i: int| 0 <= i < inner.len() && #[trigger] inner[i] && i / w == area.min_y;
    let d = choose|i: int| 0 <= i < inner.len() && #[trigger] inner[i] && i / w == area.max_y;
    assert(inner[a] && inner[b] && inner[c] && inner[d]);
}

/// Marks enclose the same cells wherever they stand, and no padding.
proof fn lemma_framed_cover(frame: Frame, inner: Seq<bool>, outer: Seq<bool>, x: int, y: int)
    requires
        frame.is_valid(),
        is_framed(frame, inner, outer, false),
        0 <= x < frame.width,
        0 <= y < frame.height,
    ensures
        badge::is_covered(outer, frame.width, frame.height, x, y) <==> frame.holds(x, y)
            && badge::is_covered(
            inner,
            frame.inner_width,
            frame.inner_height,
            x - frame.left,
            y - frame.top,
        ),
{
    let (w, h) = (frame.inner_width, frame.inner_height);
    let row = badge::row_of(outer, frame.width, y);
    let column = badge::column_of(outer, frame.width, frame.height, x);
    assert forall|c: int| 0 <= c < frame.width implies #[trigger] row[c] == (frame.holds(c, y)
        && inner[frame.inner(c, y)]) by {
        assert(row[c] == outer[frame.outer(c, y)]);
    }
    assert forall|r: int| 0 <= r < frame.height implies #[trigger] column[r] == (frame.holds(x, r)
        && inner[frame.inner(x, r)]) by {
        assert(column[r] == outer[frame.outer(x, r)]);
    }
    if badge::is_covered(outer, frame.width, frame.height, x, y) {
        let (first, last) = choose|first: int, last: int|
            0 <= first <= x <= last < row.len() && #[trigger] row[first] && #[trigger] row[last];
        let (above, below) = choose|above: int, below: int|
            0 <= above <= y <= below < column.len() && #[trigger] column[above]
                && #[trigger] column[below];
        assert(row[first] && row[last] && column[above] && column[below]);
        let inner_row = badge::row_of(inner, w, y - frame.top);
        let inner_column = badge::column_of(inner, w, h, x - frame.left);
        assert(inner_row[first - frame.left] && inner_row[last - frame.left]);
        assert(inner_column[above - frame.top] && inner_column[below - frame.top]);
    }
    if frame.holds(x, y) && badge::is_covered(inner, w, h, x - frame.left, y - frame.top) {
        let inner_row = badge::row_of(inner, w, y - frame.top);
        let inner_column = badge::column_of(inner, w, h, x - frame.left);
        let (first, last) = choose|first: int, last: int|
            0 <= first <= x - frame.left <= last < inner_row.len() && #[trigger] inner_row[first]
                && #[trigger] inner_row[last];
        let (above, below) = choose|above: int, below: int|
            0 <= above <= y - frame.top <= below < inner_column.len()
                && #[trigger] inner_column[above] && #[trigger] inner_column[below];
        assert(inner_row[first] && inner_row[last]);
        assert(inner_column[above] && inner_column[below]);
        assert(row[first + frame.left] && row[last + frame.left]);
        assert(column[above + frame.top] && column[below + frame.top]);
    }
}

/// The rim of what marks enclose is the same wherever they stand.
proof fn lemma_framed_rim(frame: Frame, inner: Seq<bool>, outer: Seq<bool>, x: int, y: int)
    requires
        frame.is_valid(),
        is_framed(frame, inner, outer, false),
        frame.holds(x, y),
    ensures
        badge::is_beside_covered(outer, frame.width, frame.height, x, y)
            <==> badge::is_beside_covered(
            inner,
            frame.inner_width,
            frame.inner_height,
            x - frame.left,
            y - frame.top,
        ),
{
    let (w, h) = (frame.inner_width, frame.inner_height);
    let margin = badge::BADGE_ANALYSIS_MARGIN as int;
    if badge::is_beside_covered(outer, frame.width, frame.height, x, y) {
        let (column, row) = choose|column: int, row: int|
            {
                &&& 0 <= column < frame.width
                &&& 0 <= row < frame.height
                &&& -margin <= column - x <= margin
                &&& -margin <= row - y <= margin
                &&& #[trigger] badge::is_covered(outer, frame.width, frame.height, column, row)
            };
        lemma_framed_cover(frame, inner, outer, column, row);
        assert(badge::is_covered(inner, w, h, column - frame.left, row - frame.top));
    }
    if badge::is_beside_covered(inner, w, h, x - frame.left, y - frame.top) {
        let (column, row) = choose|column: int, row: int|
            {
                &&& 0 <= column < w
                &&& 0 <= row < h
                &&& -margin <= column - (x - frame.left) <= margin
                &&& -margin <= row - (y - frame.top) <= margin
                &&& #[trigger] badge::is_covered(inner, w, h, column, row)
            };
        lemma_framed_cover(frame, inner, outer, column + frame.left, row + frame.top);
        assert(badge::is_covered(
            outer,
            frame.width,
            frame.height,
            column + frame.left,
            row + frame.top,
        ));
    }
}

/// The image `outer` shows the image `inner` in its place, and nothing visible around it.
pub open spec fn is_padded(frame: Frame, inner: RgbaImage, outer: RgbaImage) -> bool {
    &&& frame.is_valid()
    &&& inner.is_valid()
    &&& outer.is_valid()
    &&& inner.width == frame.inner_width
    &&& inner.height == frame.inner_height
    &&& outer.width == frame.width
    &&& outer.height == frame.height
    &&& forall|x: int, y: int|
        #![trigger frame.outer(x, y)]
        0 <= x < frame.width && 0 <= y < frame.height ==> {
            let pixel = laws::pixels_in(outer)[frame.outer(x, y)];
            if frame.holds(x, y) {
                pixel == laws::pixels_in(inner)[frame.inner(x, y)]
            } else {
                !tone::is_visible(pixel)
            }
        }
}

/// Padding adds no marks to the masks of an image.
proof fn lemma_padded_masks(frame: Frame, inner: RgbaImage, outer: RgbaImage)
    requires
        is_padded(frame, inner, outer),
    ensures
        is_framed(
            frame,
            badge::visible_mask(laws::pixels_in(inner)),
            badge::visible_mask(laws::pixels_in(outer)),
            false,
        ),
        is_framed(
            frame,
            badge::coloured_mask(laws::pixels_in(inner)),
            badge::coloured_mask(laws::pixels_in(outer)),
            false,
        ),
{
    let (a, b) = (laws::pixels_in(inner), laws::pixels_in(outer));
    assert forall|x: int, y: int|
        0 <= x < frame.width && 0 <= y < frame.height implies badge::visible_mask(b)[
    #[trigger] frame.outer(x, y)] == if frame.holds(x, y) {
        badge::visible_mask(a)[frame.inner(x, y)]
    } else {
        false
    } by {
        lemma_frame_cell(frame, x, y);
    }
    assert forall|x: int, y: int|
        0 <= x < frame.width && 0 <= y < frame.height implies badge::coloured_mask(b)[
    #[trigger] frame.outer(x, y)] == if frame.holds(x, y) {
        badge::coloured_mask(a)[frame.inner(x, y)]
    } else {
        false
    } by {
        lemma_frame_cell(frame, x, y);
    }
}

/// A badge is a badge still when its icon is padded.
pub proof fn law_padding_keeps_badges(frame: Frame, inner: RgbaImage, outer: RgbaImage)
    requires
        is_padded(frame, inner, outer),
        laws::shows_badge(inner),
    ensures
        laws::shows_badge(outer),
{
    let (a, b) = (laws::pixels_in(inner), laws::pixels_in(outer));
    let (w, h) = (frame.inner_width, frame.inner_height);
    let (seen, tinted) = (badge::visible_mask(a), badge::coloured_mask(a));
    lemma_padded_masks(frame, inner, outer);
    lemma_framed_count(frame, seen, badge::visible_mask(b));
    lemma_framed_count(frame, tinted, badge::coloured_mask(b));
    let (bounds, artwork) = choose|bounds: Rect, artwork: Rect|
        {
            &&& #[trigger] badge::is_box(tinted, w, bounds)
            &&& #[trigger] badge::is_box(seen, w, artwork)
            &&& badge::is_plausible(
                bounds,
                artwork,
                badge::count(tinted) as int,
                badge::count(seen) as int,
                w,
                h,
            )
        };
    lemma_framed_box(frame, tinted, badge::coloured_mask(b), bounds);
    lemma_framed_box(frame, seen, badge::visible_mask(b), artwork);
    assert(w * h <= frame.width * frame.height) by (nonlinear_arith)
        requires
            0 < w <= frame.width,
            0 < h <= frame.height,
    ;
    assert(badge::is_plausible(
        moved(frame, bounds),
        moved(frame, artwork),
        badge::count(tinted) as int,
        badge::count(seen) as int,
        frame.width,
        frame.height,
    ));
}

/// Transparent padding changes no decision, unless it is the padding that lets coloured pixels
/// pass for a badge.
pub proof fn law_padding_keeps_decisions(
    frame: Frame,
    inner: RgbaImage,
    outer: RgbaImage,
    colour_icons: bool,
    explicit: bool,
)
    requires
        is_padded(frame, inner, outer),
        laws::shows_badge(outer) ==> laws::shows_badge(inner),
    ensures
        paint::decide(outer, colour_icons, explicit) == paint::decide(
            inner,
            colour_icons,
            explicit,
        ),
{
    let (a, b) = (laws::pixels_in(inner), laws::pixels_in(outer));
    let (w, h) = (frame.inner_width, frame.inner_height);
    let inner_samples = paint::samples_of(a, w, h);
    let outer_samples = paint::samples_of(b, frame.width, frame.height);
    lemma_padded_masks(frame, inner, outer);
    if laws::shows_badge(inner) {
        law_padding_keeps_badges(frame, inner, outer);
    }
    assert forall|x: int, y: int|
        0 <= x < frame.width && 0 <= y < frame.height implies outer_samples[
    #[trigger] frame.outer(x, y)] == if frame.holds(x, y) {
        inner_samples[frame.inner(x, y)]
    } else {
        None
    } by {
        lemma_frame_cell(frame, x, y);
        if frame.holds(x, y) {
            lemma_framed_rim(
                frame,
                badge::coloured_mask(a),
                badge::coloured_mask(b),
                x,
                y,
            );
        }
    }
    lemma_framed_judgement(frame, inner_samples, outer_samples);
}

/// A padded icon is painted as it is without the padding.
pub proof fn law_padding_keeps_painting(
    frame: Frame,
    inner: RgbaImage,
    outer: RgbaImage,
    theme: ThemeContext,
    verdict: Verdict,
)
    requires
        is_padded(frame, inner, outer),
        laws::shows_badge(outer) ==> laws::shows_badge(inner),
    ensures
        forall|x: int, y: int|
            frame.holds(x, y) ==> laws::painted_pixels(outer, theme, verdict)[
            #[trigger] frame.outer(x, y)] == laws::painted_pixels(
                inner,
                theme,
                verdict,
            )[frame.inner(x, y)],
{
    let (a, b) = (laws::pixels_in(inner), laws::pixels_in(outer));
    let (after_a, after_b) = (
        laws::painted_pixels(inner, theme, verdict),
        laws::painted_pixels(outer, theme, verdict),
    );
    lemma_padded_masks(frame, inner, outer);
    if laws::shows_badge(inner) {
        law_padding_keeps_badges(frame, inner, outer);
    }
    assert forall|x: int, y: int| frame.holds(x, y) implies after_b[#[trigger] frame.outer(x, y)]
        == after_a[frame.inner(x, y)] by {
        lemma_frame_cell(frame, x, y);
        lemma_framed_cover(frame, badge::coloured_mask(a), badge::coloured_mask(b), x, y);
        let (i, o) = (frame.inner(x, y), frame.outer(x, y));
        assert(b[o] == a[i]);
        assert(laws::keeps(outer, o) == laws::keeps(inner, i));
        if laws::keeps(inner, i) {
            laws::law_kept_pixels_stay(inner, theme, verdict);
            laws::law_kept_pixels_stay(outer, theme, verdict);
        } else {
            assert((4 * i + 1) / 4 == i && (4 * i + 2) / 4 == i && (4 * i + 3) / 4 == i);
            assert((4 * o + 1) / 4 == o && (4 * o + 2) / 4 == o && (4 * o + 3) / 4 == o);
            assert(inner.bytes@[4 * i + 3] == a[i][3] && outer.bytes@[4 * o + 3] == b[o][3]);
        }
    }
}

} // verus!

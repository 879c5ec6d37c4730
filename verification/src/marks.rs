//! What a badge is, in terms of the channels of pixels and of the columns and rows they stand in.

use vstd::prelude::*;

use crate::badge;
use crate::badge::{Badge, Bounds, Rect, Span};
use crate::raster;
use crate::raster::Pixel;
use crate::sums;

verus! {

/// Whether a pixel can be seen: its alpha is sixteen at least.
pub open spec fn is_seen(pixel: Pixel) -> bool {
    pixel[3] >= 16
}

/// Whether a pixel can be seen and has two channels more than sixteen steps apart.
pub open spec fn is_vivid(pixel: Pixel) -> bool {
    &&& pixel[3] >= 16
    &&& {
        ||| pixel[0] - pixel[1] > 16 || pixel[1] - pixel[0] > 16
        ||| pixel[0] - pixel[2] > 16 || pixel[2] - pixel[0] > 16
        ||| pixel[1] - pixel[2] > 16 || pixel[2] - pixel[1] > 16
    }
}

/// `area` holds all seen pixels, and each of its sides has one.
pub open spec fn is_around_seen(pixels: Seq<Pixel>, width: int, area: Rect) -> bool {
    &&& forall|i: int|
        0 <= i < pixels.len() && is_seen(#[trigger] pixels[i]) ==> area.min_x <= i % width
            <= area.max_x && area.min_y <= i / width <= area.max_y
    &&& exists|i: int|
        0 <= i < pixels.len() && is_seen(#[trigger] pixels[i]) && i % width == area.min_x
    &&& exists|i: int|
        0 <= i < pixels.len() && is_seen(#[trigger] pixels[i]) && i % width == area.max_x
    &&& exists|i: int|
        0 <= i < pixels.len() && is_seen(#[trigger] pixels[i]) && i / width == area.min_y
    &&& exists|i: int|
        0 <= i < pixels.len() && is_seen(#[trigger] pixels[i]) && i / width == area.max_y
}

/// `area` holds all vivid pixels, and each of its sides has one.
pub open spec fn is_around_vivid(pixels: Seq<Pixel>, width: int, area: Rect) -> bool {
    &&& forall|i: int|
        0 <= i < pixels.len() && is_vivid(#[trigger] pixels[i]) ==> area.min_x <= i % width
            <= area.max_x && area.min_y <= i / width <= area.max_y
    &&& exists|i: int|
        0 <= i < pixels.len() && is_vivid(#[trigger] pixels[i]) && i % width == area.min_x
    &&& exists|i: int|
        0 <= i < pixels.len() && is_vivid(#[trigger] pixels[i]) && i % width == area.max_x
    &&& exists|i: int|
        0 <= i < pixels.len() && is_vivid(#[trigger] pixels[i]) && i / width == area.min_y
    &&& exists|i: int|
        0 <= i < pixels.len() && is_vivid(#[trigger] pixels[i]) && i / width == area.max_y
}

/// Whether `gap` columns or rows are within a sixteenth of the longer side of `artwork`,
/// rounded up.
pub open spec fn is_short(gap: int, artwork: Rect) -> bool {
    ||| 16 * (gap - 1) < artwork.max_x - artwork.min_x + 1
    ||| 16 * (gap - 1) < artwork.max_y - artwork.min_y + 1
}

/// The visible pixels of an icon are those with an alpha of sixteen at least.
pub proof fn law_visible_pixels_are_seen(pixels: Seq<Pixel>, i: int)
    requires
        0 <= i < pixels.len(),
    ensures
        badge::visible_mask(pixels).len() == pixels.len(),
        badge::visible_mask(pixels)[i] <==> is_seen(pixels[i]),
{
}

/// The coloured pixels of an icon are the vivid ones.
pub proof fn law_coloured_pixels_are_vivid(pixels: Seq<Pixel>, i: int)
    requires
        0 <= i < pixels.len(),
    ensures
        badge::coloured_mask(pixels).len() == pixels.len(),
        badge::coloured_mask(pixels)[i] <==> is_vivid(pixels[i]),
{
}

/// Coloured pixels look like a badge exactly where their box comes close to one side of the
/// artwork at least, takes two fifths of the grid at most, and they are half of what is visible
/// at most and fill three twentieths of their box at least.
pub proof fn law_likely_badges(
    bounds: Rect,
    artwork: Rect,
    coloured: int,
    visible: int,
    width: int,
    height: int,
)
    requires
        artwork.is_ordered(),
    ensures
        badge::is_plausible(bounds, artwork, coloured, visible, width, height) <==> {
            &&& {
                ||| is_short(bounds.min_x - artwork.min_x, artwork)
                ||| is_short(bounds.min_y - artwork.min_y, artwork)
                ||| is_short(artwork.max_x - bounds.max_x, artwork)
                ||| is_short(artwork.max_y - bounds.max_y, artwork)
            }
            &&& 5 * ((bounds.max_x - bounds.min_x + 1) * (bounds.max_y - bounds.min_y + 1)) <= 2 * (
            width * height)
            &&& 2 * coloured <= visible
            &&& 20 * coloured >= 3 * ((bounds.max_x - bounds.min_x + 1) * (bounds.max_y
                - bounds.min_y + 1))
        },
{
    let side = vstd::math::max(artwork.width(), artwork.height());
    let margin = badge::edge_margin(artwork);
    assert(16 * (margin - 1) < side <= 16 * margin);
}

/// The masks of an icon have the boxes of its seen and of its vivid pixels.
proof fn lemma_boxes(pixels: Seq<Pixel>, width: int, bounds: Rect, artwork: Rect)
    requires
        is_around_vivid(pixels, width, bounds),
        is_around_seen(pixels, width, artwork),
    ensures
        badge::is_box(badge::coloured_mask(pixels), width, bounds),
        badge::is_box(badge::visible_mask(pixels), width, artwork),
{
    let (coloured, visible) = (badge::coloured_mask(pixels), badge::visible_mask(pixels));
    assert forall|i: int| 0 <= i < pixels.len() implies #[trigger] coloured[i] == is_vivid(
        pixels[i],
    ) by {}
    assert forall|i: int| 0 <= i < pixels.len() implies coloured[i] == is_vivid(
        #[trigger] pixels[i],
    ) by {}
    assert forall|i: int| 0 <= i < pixels.len() implies #[trigger] visible[i] == is_seen(
        pixels[i],
    ) by {}
    assert forall|i: int| 0 <= i < pixels.len() implies visible[i] == is_seen(
        #[trigger] pixels[i],
    ) by {}
}

/// An icon has a badge exactly where its vivid pixels, in a box `bounds`, come close to one side
/// at least of the box `artwork` of its seen pixels, their box takes two fifths of the grid at
/// most, they are half of the seen pixels at most and fill three twentieths of their box at
/// least, and a tenth of the pixels at least is not seen.
pub proof fn law_badges_are_small_marks_at_the_edge(
    pixels: Seq<Pixel>,
    width: int,
    height: int,
    bounds: Rect,
    artwork: Rect,
)
    requires
        is_around_vivid(pixels, width, bounds),
        is_around_seen(pixels, width, artwork),
    ensures
        badge::has_badge(pixels, width, height) <==> {
            let vivid = sums::count_where(pixels.len() as int, |i: int| is_vivid(pixels[i]));
            let seen = sums::count_where(pixels.len() as int, |i: int| is_seen(pixels[i]));
            let area = (bounds.max_x - bounds.min_x + 1) * (bounds.max_y - bounds.min_y + 1);
            &&& {
                ||| is_short(bounds.min_x - artwork.min_x, artwork)
                ||| is_short(bounds.min_y - artwork.min_y, artwork)
                ||| is_short(artwork.max_x - bounds.max_x, artwork)
                ||| is_short(artwork.max_y - bounds.max_y, artwork)
            }
            &&& 5 * area <= 2 * (width * height)
            &&& 2 * vivid <= seen
            &&& 20 * vivid >= 3 * area
            &&& 10 * (pixels.len() - seen) >= pixels.len()
        },
{
    let (coloured, visible) = (badge::coloured_mask(pixels), badge::visible_mask(pixels));
    lemma_boxes(pixels, width, bounds, artwork);
    sums::lemma_count_where(coloured, |i: int| is_vivid(pixels[i]));
    sums::lemma_count_where(visible, |i: int| is_seen(pixels[i]));
    assert(artwork.is_ordered());
    law_likely_badges(
        bounds,
        artwork,
        badge::count(coloured) as int,
        badge::count(visible) as int,
        width,
        height,
    );
    let i = choose|i: int|
        0 <= i < pixels.len() && is_seen(#[trigger] pixels[i]) && i % width == artwork.min_x;
    lemma_some_counted(pixels.len() as int, |j: int| is_seen(pixels[j]), i);
    if badge::has_badge(pixels, width, height) {
        let (b, a) = choose|b: Rect, a: Rect|
            {
                &&& #[trigger] badge::is_box(coloured, width, b)
                &&& #[trigger] badge::is_box(visible, width, a)
                &&& badge::is_plausible(
                    b,
                    a,
                    badge::count(coloured) as int,
                    badge::count(visible) as int,
                    width,
                    height,
                )
            };
        badge::lemma_box_unique(coloured, width, b, bounds);
        badge::lemma_box_unique(visible, width, a, artwork);
    }
}

/// A choice that holds a number counts one at least.
proof fn lemma_some_counted(n: int, chosen: spec_fn(int) -> bool, i: int)
    requires
        0 <= i < n,
        chosen(i),
    ensures
        sums::count_where(n, chosen) > 0,
    decreases n,
{
    if i < n - 1 {
        lemma_some_counted(n - 1, chosen, i);
    }
}

/// One side is enough: a small, dense mark on an icon with clear space is a badge wherever its
/// box comes close to a single side of the artwork, however far it is from the other three.
pub proof fn law_one_side_is_enough(
    pixels: Seq<Pixel>,
    width: int,
    height: int,
    bounds: Rect,
    artwork: Rect,
    gap: int,
)
    requires
        is_around_vivid(pixels, width, bounds),
        is_around_seen(pixels, width, artwork),
        5 * ((bounds.max_x - bounds.min_x + 1) * (bounds.max_y - bounds.min_y + 1)) <= 2 * (width
            * height),
        2 * sums::count_where(pixels.len() as int, |i: int| is_vivid(pixels[i]))
            <= sums::count_where(pixels.len() as int, |i: int| is_seen(pixels[i])),
        20 * sums::count_where(pixels.len() as int, |i: int| is_vivid(pixels[i])) >= 3 * ((
        bounds.max_x - bounds.min_x + 1) * (bounds.max_y - bounds.min_y + 1)),
        10 * (pixels.len() - sums::count_where(pixels.len() as int, |i: int| is_seen(pixels[i])))
            >= pixels.len(),
        is_short(gap, artwork),
        gap == bounds.min_x - artwork.min_x || gap == bounds.min_y - artwork.min_y || gap
            == artwork.max_x - bounds.max_x || gap == artwork.max_y - bounds.max_y,
    ensures
        badge::has_badge(pixels, width, height),
{
    law_badges_are_small_marks_at_the_edge(pixels, width, height, bounds, artwork);
}

/// Vivid pixels that come close to no side of the artwork are no badge.
pub proof fn law_marks_inside_are_no_badge(
    pixels: Seq<Pixel>,
    width: int,
    height: int,
    bounds: Rect,
    artwork: Rect,
)
    requires
        is_around_vivid(pixels, width, bounds),
        is_around_seen(pixels, width, artwork),
        !is_short(bounds.min_x - artwork.min_x, artwork),
        !is_short(bounds.min_y - artwork.min_y, artwork),
        !is_short(artwork.max_x - bounds.max_x, artwork),
        !is_short(artwork.max_y - bounds.max_y, artwork),
    ensures
        !badge::has_badge(pixels, width, height),
{
    law_badges_are_small_marks_at_the_edge(pixels, width, height, bounds, artwork);
}

/// An icon with nothing vivid on it has no badge.
pub proof fn law_badges_are_vivid(pixels: Seq<Pixel>, width: int, height: int)
    requires
        forall|i: int| 0 <= i < pixels.len() ==> !is_vivid(#[trigger] pixels[i]),
    ensures
        !badge::has_badge(pixels, width, height),
{
    let coloured = badge::coloured_mask(pixels);
    assert forall|i: int| 0 <= i < coloured.len() implies !#[trigger] coloured[i] by {
        assert(!is_vivid(pixels[i]));
    }
}

/// Whether the cell `x`, `y` has a vivid pixel at it or to its left, at it or to its right, at
/// it or above it, and at it or below it.
pub open spec fn is_enclosed(pixels: Seq<Pixel>, width: int, height: int, x: int, y: int) -> bool {
    &&& exists|a: int| 0 <= a <= x && is_vivid(pixels[#[trigger] raster::cell(a, y, width)])
    &&& exists|a: int| x <= a < width && is_vivid(pixels[#[trigger] raster::cell(a, y, width)])
    &&& exists|b: int| 0 <= b <= y && is_vivid(pixels[#[trigger] raster::cell(x, b, width)])
    &&& exists|b: int| y <= b < height && is_vivid(pixels[#[trigger] raster::cell(x, b, width)])
}

/// Places stand row by row.
pub proof fn law_places_stand_row_by_row(x: int, y: int, width: int)
    ensures
        raster::cell(x, y, width) == y * width + x,
{
}

/// Marks enclose a cell exactly where there are some on both sides of it along its row and
/// along its column.
pub proof fn law_covered_cells_are_between_marks(
    mask: Seq<bool>,
    width: int,
    height: int,
    x: int,
    y: int,
)
    requires
        0 <= x < width,
        0 <= y < height,
    ensures
        badge::is_covered(mask, width, height, x, y) <==> {
            &&& exists|a: int| 0 <= a <= x && mask[#[trigger] raster::cell(a, y, width)]
            &&& exists|a: int| x <= a < width && mask[#[trigger] raster::cell(a, y, width)]
            &&& exists|b: int| 0 <= b <= y && mask[#[trigger] raster::cell(x, b, width)]
            &&& exists|b: int| y <= b < height && mask[#[trigger] raster::cell(x, b, width)]
        },
{
    let row = badge::row_of(mask, width, y);
    let column = badge::column_of(mask, width, height, x);
    assert forall|a: int| 0 <= a < width implies row[a] == mask[#[trigger] raster::cell(
        a,
        y,
        width,
    )] by {}
    assert forall|b: int| 0 <= b < height implies column[b] == mask[#[trigger] raster::cell(
        x,
        b,
        width,
    )] by {}
    if badge::is_covered(mask, width, height, x, y) {
        let (first, last) = choose|first: int, last: int|
            0 <= first <= x <= last < row.len() && #[trigger] row[first] && #[trigger] row[last];
        assert(mask[raster::cell(first, y, width)] && mask[raster::cell(last, y, width)]);
        let (top, bottom) = choose|top: int, bottom: int|
            0 <= top <= y <= bottom < column.len() && #[trigger] column[top]
                && #[trigger] column[bottom];
        assert(mask[raster::cell(x, top, width)] && mask[raster::cell(x, bottom, width)]);
    }
}

/// The cells that the coloured pixels of an icon enclose have vivid pixels on all four sides.
proof fn lemma_enclosed(pixels: Seq<Pixel>, width: int, height: int, x: int, y: int)
    requires
        pixels.len() == width * height,
        0 <= x < width,
        0 <= y < height,
    ensures
        badge::is_covered(badge::coloured_mask(pixels), width, height, x, y) <==> is_enclosed(
            pixels,
            width,
            height,
            x,
            y,
        ),
{
    let mask = badge::coloured_mask(pixels);
    law_covered_cells_are_between_marks(mask, width, height, x, y);
    assert forall|a: int| 0 <= a < width implies mask[#[trigger] raster::cell(a, y, width)]
        == is_vivid(pixels[raster::cell(a, y, width)]) by {
        raster::lemma_cell(a, y, width, height);
        law_coloured_pixels_are_vivid(pixels, raster::cell(a, y, width));
    }
    assert forall|b: int| 0 <= b < height implies mask[#[trigger] raster::cell(x, b, width)]
        == is_vivid(pixels[raster::cell(x, b, width)]) by {
        raster::lemma_cell(x, b, width, height);
        law_coloured_pixels_are_vivid(pixels, raster::cell(x, b, width));
    }
}

/// A pixel belongs to the badge of an icon that has one exactly where it has vivid pixels on all
/// four sides, itself counted in.
pub proof fn law_badges_hold_what_they_enclose(
    pixels: Seq<Pixel>,
    width: int,
    height: int,
    x: int,
    y: int,
)
    requires
        pixels.len() == width * height,
        0 <= x < width,
        0 <= y < height,
    ensures
        badge::in_badge(pixels, width, height, raster::cell(x, y, width)) <==> badge::has_badge(
            pixels,
            width,
            height,
        ) && is_enclosed(pixels, width, height, x, y),
{
    raster::lemma_cell(x, y, width, height);
    lemma_enclosed(pixels, width, height, x, y);
}

/// Whether the cell `x`, `y` or one of the eight around it is enclosed by vivid pixels.
pub open spec fn touches_enclosed(
    pixels: Seq<Pixel>,
    width: int,
    height: int,
    x: int,
    y: int,
) -> bool {
    exists|a: int, b: int|
        0 <= a < width && 0 <= b < height && -1 <= a - x <= 1 && -1 <= b - y <= 1
            && #[trigger] is_enclosed(pixels, width, height, a, b)
}

/// The rim of a badge is one cell wide.
pub proof fn law_badges_have_a_rim_of_one_cell(
    pixels: Seq<Pixel>,
    width: int,
    height: int,
    x: int,
    y: int,
)
    requires
        pixels.len() == width * height,
        0 <= x < width,
        0 <= y < height,
    ensures
        badge::beside_badge(pixels, width, height, raster::cell(x, y, width)) <==> badge::has_badge(
            pixels,
            width,
            height,
        ) && touches_enclosed(pixels, width, height, x, y),
{
    let mask = badge::coloured_mask(pixels);
    raster::lemma_cell(x, y, width, height);
    assert forall|a: int, b: int| 0 <= a < width && 0 <= b < height implies badge::is_covered(
        mask,
        width,
        height,
        a,
        b,
    ) == #[trigger] is_enclosed(pixels, width, height, a, b) by {
        lemma_enclosed(pixels, width, height, a, b);
    }
    assert forall|a: int, b: int|
        0 <= a < width && 0 <= b < height implies #[trigger] badge::is_covered(
        mask,
        width,
        height,
        a,
        b,
    ) == is_enclosed(pixels, width, height, a, b) by {
        lemma_enclosed(pixels, width, height, a, b);
    }
}

/// A span holds the places from its one end to its other, and no span holds none.
pub proof fn law_spans_hold_their_ends(first: usize, last: usize, place: int)
    ensures
        badge::in_span(Some((first, last)), place) <==> first <= place && place <= last,
        !badge::in_span(None, place),
{
}

/// The span of a line holds a place exactly where the line has a mark at it or before it and one
/// at it or after it.
pub proof fn law_spans_reach_between_marks(span: Span, line: Seq<bool>, place: int)
    requires
        badge::is_span(span, line),
    ensures
        badge::in_span(span, place) <==> {
            &&& exists|a: int| 0 <= a < line.len() && a <= place && #[trigger] line[a]
            &&& exists|b: int| 0 <= b < line.len() && place <= b && #[trigger] line[b]
        },
        span matches Some((first, last)) ==> first <= last,
{
    if let Some((first, last)) = span {
        assert(line[first as int] && line[last as int]);
    }
}

/// Lines with spans reach from the first to the last of them, and all others lie outside.
pub proof fn law_extents_reach_between_spans(spans: Seq<Span>, min: int, max: int)
    ensures
        badge::is_extent(spans, min, max) <==> {
            &&& 0 <= min <= max < spans.len()
            &&& spans[min] is Some
            &&& spans[max] is Some
            &&& forall|i: int| 0 <= i < min ==> #[trigger] spans[i] is None
            &&& forall|i: int| max < i < spans.len() ==> #[trigger] spans[i] is None
        },
{
}

/// A cell is in a badge where the span of its row holds its column and that of its column its
/// row.
pub proof fn law_badges_hold_crossings(
    badge: Badge,
    x: int,
    y: int,
    row: (usize, usize),
    column: (usize, usize),
)
    ensures
        badge.rows@[y] == Some(row) && badge.columns@[x] == Some(column) ==> (badge.holds(x, y)
            <==> row.0 <= x && x <= row.1 && column.0 <= y && y <= column.1),
        badge.rows@[y] is None || badge.columns@[x] is None ==> !badge.holds(x, y),
{
}

/// A badge affects the cells it holds and those around them, one cell wide.
pub proof fn law_badges_affect_one_cell_around(badge: Badge, x: int, y: int)
    ensures
        badge.affects(x, y) <==> exists|a: int, b: int|
            0 <= a < badge.columns@.len() && 0 <= b < badge.rows@.len() && -1 <= a - x <= 1 && -1
                <= b - y <= 1 && #[trigger] badge.holds(a, b),
{
    if badge.affects(x, y) {
        let (a, b) = choose|a: int, b: int|
            {
                &&& 0 <= a < badge.columns@.len()
                &&& 0 <= b < badge.rows@.len()
                &&& -badge::BADGE_ANALYSIS_MARGIN <= a - x <= badge::BADGE_ANALYSIS_MARGIN
                &&& -badge::BADGE_ANALYSIS_MARGIN <= b - y <= badge::BADGE_ANALYSIS_MARGIN
                &&& #[trigger] badge.holds(a, b)
            };
        assert(badge.holds(a, b));
    }
}

/// A badge made of the marks of a grid has a span for each row and each column, which holds the
/// places between its marks.
pub proof fn law_badges_have_the_spans_of_their_marks(
    badge: Badge,
    mask: Seq<bool>,
    width: int,
    height: int,
    x: int,
    y: int,
)
    requires
        badge.is_of(mask, width, height),
        0 <= x < width,
        0 <= y < height,
    ensures
        badge.rows@.len() == height,
        badge.columns@.len() == width,
        badge::in_span(badge.rows@[y], x) <==> {
            &&& exists|a: int| 0 <= a <= x && mask[#[trigger] raster::cell(a, y, width)]
            &&& exists|a: int| x <= a < width && mask[#[trigger] raster::cell(a, y, width)]
        },
        badge::in_span(badge.columns@[x], y) <==> {
            &&& exists|b: int| 0 <= b <= y && mask[#[trigger] raster::cell(x, b, width)]
            &&& exists|b: int| y <= b < height && mask[#[trigger] raster::cell(x, b, width)]
        },
{
    let row = badge::row_of(mask, width, y);
    let column = badge::column_of(mask, width, height, x);
    law_spans_reach_between_marks(badge.rows@[y], row, x);
    law_spans_reach_between_marks(badge.columns@[x], column, y);
    assert forall|a: int| 0 <= a < width implies row[a] == mask[#[trigger] raster::cell(
        a,
        y,
        width,
    )] by {}
    assert forall|a: int| 0 <= a < width implies #[trigger] row[a] == mask[raster::cell(
        a,
        y,
        width,
    )] by {}
    assert forall|b: int| 0 <= b < height implies column[b] == mask[#[trigger] raster::cell(
        x,
        b,
        width,
    )] by {}
    assert forall|b: int| 0 <= b < height implies #[trigger] column[b] == mask[raster::cell(
        x,
        b,
        width,
    )] by {}
}

/// A count is the number of marked places.
pub proof fn law_counts_are_numbers_of_marks(mask: Seq<bool>)
    ensures
        badge::count(mask) == sums::count_where(mask.len() as int, |i: int| mask[i]),
{
    sums::lemma_count_where(mask, |i: int| mask[i]);
}

/// Bounds are a rectangle with the sides they name, all four included.
pub proof fn law_bounds_include_their_sides(bounds: Bounds)
    ensures
        bounds@.min_x == bounds.min_x,
        bounds@.min_y == bounds.min_y,
        bounds@.max_x == bounds.max_x,
        bounds@.max_y == bounds.max_y,
        bounds@.min_x + bounds@.width() == bounds@.max_x + 1,
        bounds@.min_y + bounds@.height() == bounds@.max_y + 1,
{
}

} // verus!

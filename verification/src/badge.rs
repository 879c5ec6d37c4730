//! Badges: a small coloured mark laid over an otherwise grey icon.

use vstd::prelude::*;

use crate::raster;
use crate::raster::Pixel;
use crate::share;
use crate::tone;

verus! {

/// The share of an icon, in percent, that has to be clear for a badge to be looked for.
pub const MIN_CLEAR_PERCENT: usize = 10;

/// The largest share of the grid, in percent, that the box around a badge may take.
pub const MAX_BADGE_BOX_PERCENT: usize = 40;

/// The largest share of the visible pixels, in percent, that a badge may hold.
pub const MAX_BADGE_VISIBLE_PERCENT: usize = 50;

/// The least share of its box, in percent, that a badge has to fill.
pub const MIN_BADGE_FILL_PERCENT: usize = 15;

/// How far around a badge pixels are left out when an icon is judged.
pub const BADGE_ANALYSIS_MARGIN: usize = 1;

/// The part of one line between its first and its last marked place, both included.
pub type Span = Option<(usize, usize)>;

/// Which pixels are visible.
pub open spec fn visible_mask(pixels: Seq<Pixel>) -> Seq<bool> {
    Seq::new(pixels.len(), |i: int| tone::is_visible(pixels[i]))
}

/// Which pixels are visible and coloured.
pub open spec fn coloured_mask(pixels: Seq<Pixel>) -> Seq<bool> {
    Seq::new(pixels.len(), |i: int| tone::is_visible(pixels[i]) && tone::is_coloured(pixels[i]))
}

/// How many places are marked.
pub open spec fn count(mask: Seq<bool>) -> nat
    decreases mask.len(),
{
    if mask.len() == 0 {
        0
    } else {
        count(mask.drop_last()) + if mask.last() {
            1nat
        } else {
            0
        }
    }
}

/// Row `y` of a mask.
pub open spec fn row_of(mask: Seq<bool>, width: int, y: int) -> Seq<bool> {
    Seq::new(width as nat, |x: int| mask[raster::cell(x, y, width)])
}

/// Column `x` of a mask.
pub open spec fn column_of(mask: Seq<bool>, width: int, height: int, x: int) -> Seq<bool> {
    Seq::new(height as nat, |y: int| mask[raster::cell(x, y, width)])
}

/// Whether a place on a line has marks on both sides, or is marked itself.
pub open spec fn is_between(line: Seq<bool>, place: int) -> bool {
    exists|first: int, last: int|
        0 <= first <= place <= last < line.len() && #[trigger] line[first] && #[trigger] line[last]
}

/// Whether the marks enclose a cell both along its row and along its column.
pub open spec fn is_covered(mask: Seq<bool>, width: int, height: int, x: int, y: int) -> bool {
    &&& is_between(row_of(mask, width, y), x)
    &&& is_between(column_of(mask, width, height, x), y)
}

/// Whether the marks enclose a cell of the grid that is the cell `x`, `y` or touches it.
pub open spec fn is_beside_covered(
    mask: Seq<bool>,
    width: int,
    height: int,
    x: int,
    y: int,
) -> bool {
    exists|column: int, row: int|
        {
            &&& 0 <= column < width
            &&& 0 <= row < height
            &&& -BADGE_ANALYSIS_MARGIN <= column - x <= BADGE_ANALYSIS_MARGIN
            &&& -BADGE_ANALYSIS_MARGIN <= row - y <= BADGE_ANALYSIS_MARGIN
            &&& #[trigger] is_covered(mask, width, height, column, row)
        }
}

/// `span` reaches from the first to the last mark of a line.
pub open spec fn is_span(span: Span, line: Seq<bool>) -> bool {
    match span {
        Some((first, last)) => {
            &&& first < line.len() && line[first as int]
            &&& last < line.len() && line[last as int]
            &&& forall|i: int| 0 <= i < line.len() && #[trigger] line[i] ==> first <= i <= last
        },
        None => forall|i: int| 0 <= i < line.len() ==> !#[trigger] line[i],
    }
}

/// Whether a span holds a place.
pub open spec fn in_span(span: Span, place: int) -> bool {
    match span {
        Some((first, last)) => first <= place <= last,
        None => false,
    }
}

/// Whether a span holds a place.
pub fn span_covers(span: Span, value: usize) -> (covered: bool)
    ensures
        covered == in_span(span, value as int),
{
    match span {
        Some((min, max)) => min <= value && value <= max,
        None => false,
    }
}

/// The least span that holds a span and a place.
pub fn include_span(span: Span, value: usize) -> (wider: (usize, usize))
    ensures
        match span {
            Some((min, max)) => wider.0 == vstd::math::min(min as int, value as int) && wider.1
                == vstd::math::max(max as int, value as int),
            None => wider == (value, value),
        },
{
    match span {
        Some((min, max)) => (min.min(value), max.max(value)),
        None => (value, value),
    }
}

/// A rectangle of cells, all four sides included.
pub struct Rect {
    pub min_x: int,
    pub min_y: int,
    pub max_x: int,
    pub max_y: int,
}

impl Rect {
    /// The number of columns.
    pub open spec fn width(self) -> int {
        self.max_x - self.min_x + 1
    }

    /// The number of rows.
    pub open spec fn height(self) -> int {
        self.max_y - self.min_y + 1
    }

    /// The rectangle has a cell.
    pub open spec fn is_ordered(self) -> bool {
        &&& self.min_x <= self.max_x
        &&& self.min_y <= self.max_y
    }

    /// The rectangle has a cell and lies in a grid.
    pub open spec fn lies_in(self, width: int, height: int) -> bool {
        &&& 0 <= self.min_x <= self.max_x < width
        &&& 0 <= self.min_y <= self.max_y < height
    }
}

/// `area` is the least rectangle that holds all marks: it holds them, and each of its four
/// sides has one.
pub open spec fn is_box(mask: Seq<bool>, width: int, area: Rect) -> bool {
    &&& forall|i: int|
        0 <= i < mask.len() && #[trigger] mask[i] ==> area.min_x <= i % width <= area.max_x
            && area.min_y <= i / width <= area.max_y
    &&& exists|i: int| 0 <= i < mask.len() && #[trigger] mask[i] && i % width == area.min_x
    &&& exists|i: int| 0 <= i < mask.len() && #[trigger] mask[i] && i % width == area.max_x
    &&& exists|i: int| 0 <= i < mask.len() && #[trigger] mask[i] && i / width == area.min_y
    &&& exists|i: int| 0 <= i < mask.len() && #[trigger] mask[i] && i / width == area.max_y
}

/// How close to the edge of the artwork a badge has to come: a sixteenth of the longer side
/// of the artwork, rounded up.
pub open spec fn edge_margin(artwork: Rect) -> int {
    (vstd::math::max(artwork.width(), artwork.height()) + 15) / 16
}

/// Whether coloured pixels within `bounds` look like a badge on `artwork`: they come close
/// to its edge, take a small part of the grid and of what is visible, and fill their box.
pub open spec fn is_plausible(
    bounds: Rect,
    artwork: Rect,
    coloured: int,
    visible: int,
    width: int,
    height: int,
) -> bool {
    let margin = edge_margin(artwork);
    let area = bounds.width() * bounds.height();
    &&& {
        ||| bounds.min_x <= artwork.min_x + margin
        ||| bounds.min_y <= artwork.min_y + margin
        ||| bounds.max_x + margin >= artwork.max_x
        ||| bounds.max_y + margin >= artwork.max_y
    }
    &&& area * 100 <= width * height * MAX_BADGE_BOX_PERCENT
    &&& coloured * 100 <= visible * MAX_BADGE_VISIBLE_PERCENT
    &&& coloured * 100 >= area * MIN_BADGE_FILL_PERCENT
}

/// Whether the coloured pixels of an icon are a badge.
pub open spec fn has_badge(pixels: Seq<Pixel>, width: int, height: int) -> bool {
    let visible = count(visible_mask(pixels));
    &&& visible > 0
    &&& (pixels.len() - visible) * 100 >= pixels.len() * MIN_CLEAR_PERCENT
    &&& exists|bounds: Rect, artwork: Rect|
        {
            &&& #[trigger] is_box(coloured_mask(pixels), width, bounds)
            &&& #[trigger] is_box(visible_mask(pixels), width, artwork)
            &&& is_plausible(
                bounds,
                artwork,
                count(coloured_mask(pixels)) as int,
                visible as int,
                width,
                height,
            )
        }
}

/// Whether a pixel belongs to the badge of an icon.
pub open spec fn in_badge(pixels: Seq<Pixel>, width: int, height: int, i: int) -> bool {
    has_badge(pixels, width, height) && is_covered(
        coloured_mask(pixels),
        width,
        height,
        i % width,
        i / width,
    )
}

/// Whether a pixel belongs to the badge of an icon or touches it.
pub open spec fn beside_badge(pixels: Seq<Pixel>, width: int, height: int, i: int) -> bool {
    has_badge(pixels, width, height) && is_beside_covered(
        coloured_mask(pixels),
        width,
        height,
        i % width,
        i / width,
    )
}

/// A badge: for each row and each column of the icon, the span of its coloured pixels.
pub struct Badge {
    pub rows: Vec<Span>,
    pub columns: Vec<Span>,
}

impl Badge {
    /// The badge holds the spans of the marks of a grid.
    pub open spec fn is_of(&self, mask: Seq<bool>, width: int, height: int) -> bool {
        &&& self.rows@.len() == height
        &&& self.columns@.len() == width
        &&& forall|y: int|
            0 <= y < height ==> is_span(#[trigger] self.rows@[y], row_of(mask, width, y))
        &&& forall|x: int|
            0 <= x < width ==> is_span(
                #[trigger] self.columns@[x],
                column_of(mask, width, height, x),
            )
    }

    /// Whether the cell `x`, `y` lies in the spans of its row and of its column.
    pub open spec fn holds(&self, x: int, y: int) -> bool {
        in_span(self.rows@[y], x) && in_span(self.columns@[x], y)
    }

    /// Whether the cell `x`, `y`, or one that touches it, lies in the badge.
    pub open spec fn affects(&self, x: int, y: int) -> bool {
        exists|column: int, row: int|
            {
                &&& 0 <= column < self.columns@.len()
                &&& 0 <= row < self.rows@.len()
                &&& -BADGE_ANALYSIS_MARGIN <= column - x <= BADGE_ANALYSIS_MARGIN
                &&& -BADGE_ANALYSIS_MARGIN <= row - y <= BADGE_ANALYSIS_MARGIN
                &&& #[trigger] self.holds(column, row)
            }
    }

    /// Whether the cell `x`, `y` belongs to the badge.
    pub fn contains(&self, x: usize, y: usize) -> (found: bool)
        requires
            y < self.rows@.len(),
            in_span(self.rows@[y as int], x as int) ==> x < self.columns@.len(),
        ensures
            found == self.holds(x as int, y as int),
    {
        span_covers(self.rows[y], x) && span_covers(self.columns[x], y)
    }

    /// Whether the cell `x`, `y` is too close to the badge to judge the icon by.
    pub fn affects_analysis(&self, x: usize, y: usize) -> (found: bool)
        requires
            self.columns@.len() > 0,
            self.rows@.len() > 0,
        ensures
            found == self.affects(x as int, y as int),
    {
        let max_x: usize = x.saturating_add(BADGE_ANALYSIS_MARGIN).min(self.columns.len() - 1);
        let max_y: usize = y.saturating_add(BADGE_ANALYSIS_MARGIN).min(self.rows.len() - 1);
        let min_x: usize = x.saturating_sub(BADGE_ANALYSIS_MARGIN);
        let min_y: usize = y.saturating_sub(BADGE_ANALYSIS_MARGIN);
        let mut row: usize = min_y;
        while row <= max_y
            invariant
                min_x == vstd::math::max(x - BADGE_ANALYSIS_MARGIN, 0),
                min_y == vstd::math::max(y - BADGE_ANALYSIS_MARGIN, 0),
                max_x == vstd::math::min(x + BADGE_ANALYSIS_MARGIN, self.columns@.len() - 1),
                max_y == vstd::math::min(y + BADGE_ANALYSIS_MARGIN, self.rows@.len() - 1),
                max_x < usize::MAX,
                max_y < usize::MAX,
                min_y <= row,
                forall|c: int, r: int|
                    min_x <= c <= max_x && min_y <= r < row && r <= max_y ==> !#[trigger] self.holds(
                        c,
                        r,
                    ),
            decreases max_y + 1 - row,
        {
            let mut column: usize = min_x;
            while column <= max_x
                invariant
                    min_x == vstd::math::max(x - BADGE_ANALYSIS_MARGIN, 0),
                    min_y == vstd::math::max(y - BADGE_ANALYSIS_MARGIN, 0),
                    max_x == vstd::math::min(x + BADGE_ANALYSIS_MARGIN, self.columns@.len() - 1),
                    max_y == vstd::math::min(y + BADGE_ANALYSIS_MARGIN, self.rows@.len() - 1),
                    max_x < usize::MAX,
                    min_x <= column,
                    min_y <= row <= max_y,
                    forall|c: int, r: int|
                        min_x <= c <= max_x && min_y <= r < row ==> !#[trigger] self.holds(c, r),
                    forall|c: int|
                        min_x <= c < column && c <= max_x ==> !#[trigger] self.holds(c, row as int),
                decreases max_x + 1 - column,
            {
                if self.contains(column, row) {
                    return true;
                }
                column += 1;
            }
            row += 1;
        }
        false
    }
}

/// A span holds the places between the marks of its line.
proof fn lemma_in_span(span: Span, line: Seq<bool>, place: int)
    requires
        is_span(span, line),
        0 <= place < line.len(),
    ensures
        in_span(span, place) <==> is_between(line, place),
{
    if let Some((first, last)) = span {
        assert(line[first as int] && line[last as int]);
    }
}

/// A badge holds the cells that the marks it was made of enclose.
pub proof fn lemma_badge_holds(badge: Badge, mask: Seq<bool>, width: int, height: int)
    requires
        badge.is_of(mask, width, height),
    ensures
        forall|x: int, y: int|
            0 <= x < width && 0 <= y < height ==> (#[trigger] badge.holds(x, y) <==> is_covered(
                mask,
                width,
                height,
                x,
                y,
            )),
        forall|x: int, y: int| #[trigger]
            badge.affects(x, y) <==> is_beside_covered(mask, width, height, x, y),
{
    assert forall|x: int, y: int| 0 <= x < width && 0 <= y < height implies (#[trigger] badge.holds(
        x,
        y,
    ) <==> is_covered(mask, width, height, x, y)) by {
        lemma_in_span(badge.rows@[y], row_of(mask, width, y), x);
        lemma_in_span(badge.columns@[x], column_of(mask, width, height, x), y);
    }
    assert forall|x: int, y: int| #[trigger] badge.affects(x, y) <==> is_beside_covered(
        mask,
        width,
        height,
        x,
        y,
    ) by {
        if badge.affects(x, y) {
            let (column, row) = choose|column: int, row: int|
                {
                    &&& 0 <= column < badge.columns@.len()
                    &&& 0 <= row < badge.rows@.len()
                    &&& -BADGE_ANALYSIS_MARGIN <= column - x <= BADGE_ANALYSIS_MARGIN
                    &&& -BADGE_ANALYSIS_MARGIN <= row - y <= BADGE_ANALYSIS_MARGIN
                    &&& #[trigger] badge.holds(column, row)
                };
            assert(is_covered(mask, width, height, column, row));
        }
        if is_beside_covered(mask, width, height, x, y) {
            let (column, row) = choose|column: int, row: int|
                {
                    &&& 0 <= column < width
                    &&& 0 <= row < height
                    &&& -BADGE_ANALYSIS_MARGIN <= column - x <= BADGE_ANALYSIS_MARGIN
                    &&& -BADGE_ANALYSIS_MARGIN <= row - y <= BADGE_ANALYSIS_MARGIN
                    &&& #[trigger] is_covered(mask, width, height, column, row)
                };
            assert(badge.holds(column, row));
        }
    }
}

/// The rectangle of cells that something takes up.
#[derive(Clone, Copy)]
pub struct Bounds {
    pub min_x: usize,
    pub min_y: usize,
    pub max_x: usize,
    pub max_y: usize,
}

impl View for Bounds {
    type V = Rect;

    open spec fn view(&self) -> Rect {
        Rect {
            min_x: self.min_x as int,
            min_y: self.min_y as int,
            max_x: self.max_x as int,
            max_y: self.max_y as int,
        }
    }
}

/// `min` and `max` are the first and the last line that has a span.
pub open spec fn is_extent(spans: Seq<Span>, min: int, max: int) -> bool {
    &&& 0 <= min < spans.len() && spans[min] is Some
    &&& 0 <= max < spans.len() && spans[max] is Some
    &&& forall|i: int| 0 <= i < spans.len() && #[trigger] spans[i] is Some ==> min <= i <= max
}

/// The first and the last line that has a span.
fn occupied(spans: &[Span]) -> (extent: Option<(usize, usize)>)
    ensures
        match extent {
            Some((min, max)) => is_extent(spans@, min as int, max as int),
            None => forall|i: int| 0 <= i < spans@.len() ==> #[trigger] spans@[i] is None,
        },
{
    let mut extent: Option<(usize, usize)> = None;
    let mut i: usize = 0;
    while i < spans.len()
        invariant
            i <= spans@.len(),
            match extent {
                Some((min, max)) => {
                    &&& min < i && spans@[min as int] is Some
                    &&& max < i && spans@[max as int] is Some
                    &&& forall|j: int| 0 <= j < i && #[trigger] spans@[j] is Some ==> min <= j <= max
                },
                None => forall|j: int| 0 <= j < i ==> #[trigger] spans@[j] is None,
            },
        decreases spans@.len() - i,
    {
        if spans[i].is_some() {
            extent = Some(include_span(extent, i));
        }
        i += 1;
    }
    extent
}

impl Bounds {
    /// The bounds of spans along rows and along columns; none where there is no span.
    pub fn of(rows: &[Span], columns: &[Span]) -> (bounds: Option<Bounds>)
        ensures
            match bounds {
                Some(area) => {
                    &&& is_extent(rows@, area.min_y as int, area.max_y as int)
                    &&& is_extent(columns@, area.min_x as int, area.max_x as int)
                },
                None => {
                    ||| forall|i: int| 0 <= i < rows@.len() ==> #[trigger] rows@[i] is None
                    ||| forall|i: int| 0 <= i < columns@.len() ==> #[trigger] columns@[i] is None
                },
            },
    {
        match (occupied(rows), occupied(columns)) {
            (Some((min_y, max_y)), Some((min_x, max_x))) => Some(
                Bounds { min_x, min_y, max_x, max_y },
            ),
            _ => None,
        }
    }

    /// The number of columns.
    pub fn width(self) -> (columns: usize)
        requires
            self.min_x <= self.max_x,
            self.max_x - self.min_x < usize::MAX,
        ensures
            columns == self@.width(),
    {
        self.max_x - self.min_x + 1
    }

    /// The number of rows.
    pub fn height(self) -> (rows: usize)
        requires
            self.min_y <= self.max_y,
            self.max_y - self.min_y < usize::MAX,
        ensures
            rows == self@.height(),
    {
        self.max_y - self.min_y + 1
    }
}

/// Whether coloured pixels within `bounds` look like a badge on `artwork`.
pub fn plausible_badge(
    bounds: Bounds,
    artwork: Bounds,
    coloured: usize,
    visible: usize,
    width: usize,
    height: usize,
) -> (plausible: bool)
    requires
        bounds@.is_ordered(),
        artwork@.is_ordered(),
        bounds@.width() <= usize::MAX,
        bounds@.height() <= usize::MAX,
        bounds@.width() * bounds@.height() <= usize::MAX,
        artwork@.width() <= usize::MAX,
        artwork@.height() <= usize::MAX,
        artwork.min_x + edge_margin(artwork@) <= usize::MAX,
        artwork.min_y + edge_margin(artwork@) <= usize::MAX,
        width * height <= usize::MAX,
    ensures
        plausible == is_plausible(
            bounds@,
            artwork@,
            coloured as int,
            visible as int,
            width as int,
            height as int,
        ),
{
    let area: usize = bounds.width() * bounds.height();
    let side: usize = artwork.width().max(artwork.height());
    let margin: usize = if side % 16 == 0 {
        side / 16
    } else {
        side / 16 + 1
    };
    assert(margin == edge_margin(artwork@));
    let at_edge: bool = bounds.min_x <= artwork.min_x + margin || bounds.min_y <= artwork.min_y
        + margin || bounds.max_x.saturating_add(margin) >= artwork.max_x
        || bounds.max_y.saturating_add(margin) >= artwork.max_y;
    at_edge && share::is_at_most(area, width * height, MAX_BADGE_BOX_PERCENT)
        && share::is_at_most(coloured, visible, MAX_BADGE_VISIBLE_PERCENT) && share::is_at_least(
        coloured,
        area,
        MIN_BADGE_FILL_PERCENT,
    )
}

/// The marks at the first `n` places of a mask.
spec fn marked_before(mask: Seq<bool>, n: int) -> Seq<bool> {
    Seq::new(mask.len(), |i: int| i < n && mask[i])
}

/// One place more adds its mark.
proof fn lemma_count_step(mask: Seq<bool>, n: int)
    requires
        0 <= n < mask.len(),
    ensures
        count(mask.take(n + 1)) == count(mask.take(n)) + if mask[n] {
            1nat
        } else {
            0
        },
{
    assert(mask.take(n + 1).drop_last() =~= mask.take(n));
}

/// Two boxes around the same marks are one.
pub proof fn lemma_box_unique(mask: Seq<bool>, width: int, a: Rect, b: Rect)
    requires
        is_box(mask, width, a),
        is_box(mask, width, b),
    ensures
        a == b,
{
}

/// A box around marks of a grid lies in the grid.
proof fn lemma_box_lies_in(mask: Seq<bool>, width: int, height: int, area: Rect)
    requires
        is_box(mask, width, area),
        mask.len() == width * height,
        0 < width,
    ensures
        area.lies_in(width, height),
{
    assert forall|i: int| 0 <= i < mask.len() && #[trigger] mask[i] implies 0 <= i % width < width
        && 0 <= i / width < height by {
        raster::lemma_position(i, width, height);
    }
}

/// A mark more widens the span of a line.
proof fn lemma_span_widened(span: Span, line: Seq<bool>, place: int, wider: (usize, usize))
    requires
        is_span(span, line),
        0 <= place < line.len(),
        match span {
            Some((min, max)) => wider.0 == vstd::math::min(min as int, place) && wider.1
                == vstd::math::max(max as int, place),
            None => wider.0 == place && wider.1 == place,
        },
    ensures
        is_span(Some(wider), line.update(place, true)),
{
    let after = line.update(place, true);
    assert(after[place]);
    if let Some((min, max)) = span {
        assert(after[min as int]);
        assert(after[max as int]);
    }
    assert forall|i: int| 0 <= i < after.len() && #[trigger] after[i] implies wider.0 <= i
        <= wider.1 by {
        if i != place {
            assert(line[i]);
        }
    }
}

/// A mark more changes its own row and its own column, and no other.
proof fn lemma_mark_lines(mask: Seq<bool>, width: int, height: int, n: int)
    requires
        0 <= n < mask.len() == width * height,
        0 < width,
        mask[n],
    ensures
        forall|y: int|
            0 <= y < height ==> #[trigger] row_of(marked_before(mask, n + 1), width, y) == if y == n
                / width {
                row_of(marked_before(mask, n), width, y).update(n % width, true)
            } else {
                row_of(marked_before(mask, n), width, y)
            },
        forall|x: int|
            0 <= x < width ==> #[trigger] column_of(marked_before(mask, n + 1), width, height, x)
                == if x == n % width {
                column_of(marked_before(mask, n), width, height, x).update(n / width, true)
            } else {
                column_of(marked_before(mask, n), width, height, x)
            },
{
    let (before, after) = (marked_before(mask, n), marked_before(mask, n + 1));
    raster::lemma_position(n, width, height);
    assert forall|x: int, y: int| 0 <= x < width && 0 <= y < height implies after[
    #[trigger] raster::cell(x, y, width)] == (before[raster::cell(x, y, width)] || (x == n % width
        && y == n / width)) by {
        raster::lemma_cell(x, y, width, height);
    }
    assert forall|y: int| 0 <= y < height implies #[trigger] row_of(after, width, y) == if y == n
        / width {
        row_of(before, width, y).update(n % width, true)
    } else {
        row_of(before, width, y)
    } by {
        assert(row_of(after, width, y) =~= if y == n / width {
            row_of(before, width, y).update(n % width, true)
        } else {
            row_of(before, width, y)
        });
    }
    assert forall|x: int| 0 <= x < width implies #[trigger] column_of(after, width, height, x)
        == if x == n % width {
        column_of(before, width, height, x).update(n / width, true)
    } else {
        column_of(before, width, height, x)
    } by {
        assert(column_of(after, width, height, x) =~= if x == n % width {
            column_of(before, width, height, x).update(n / width, true)
        } else {
            column_of(before, width, height, x)
        });
    }
}

/// A mark more stretches the box around the marks.
proof fn lemma_box_stretched(mask: Seq<bool>, width: int, n: int, before: Rect, after: Rect)
    requires
        0 <= n < mask.len(),
        mask[n],
        is_box(marked_before(mask, n), width, before),
        after.min_x == vstd::math::min(before.min_x, n % width),
        after.min_y == vstd::math::min(before.min_y, n / width),
        after.max_x == vstd::math::max(before.max_x, n % width),
        after.max_y == vstd::math::max(before.max_y, n / width),
    ensures
        is_box(marked_before(mask, n + 1), width, after),
{
    let (old_marks, new_marks) = (marked_before(mask, n), marked_before(mask, n + 1));
    assert(new_marks[n]);
    assert forall|i: int| 0 <= i < mask.len() implies new_marks[i] == (#[trigger] old_marks[i] || i
        == n) by {}
    assert forall|i: int| 0 <= i < mask.len() implies #[trigger] new_marks[i] == (old_marks[i] || i
        == n) by {}
}

/// The first mark is its own box.
proof fn lemma_box_of_one(mask: Seq<bool>, width: int, n: int, area: Rect)
    requires
        0 <= n < mask.len(),
        mask[n],
        forall|i: int| 0 <= i < n ==> !#[trigger] mask[i],
        area.min_x == area.max_x == n % width,
        area.min_y == area.max_y == n / width,
    ensures
        is_box(marked_before(mask, n + 1), width, area),
{
    assert(marked_before(mask, n + 1)[n]);
}

/// As many lines without a span as asked for.
fn no_spans(n: usize) -> (spans: Vec<Span>)
    ensures
        spans@.len() == n,
        forall|i: int| 0 <= i < n ==> #[trigger] spans@[i] is None,
{
    let mut spans: Vec<Span> = Vec::new();
    while spans.len() < n
        invariant
            spans@.len() <= n,
            forall|i: int| 0 <= i < spans@.len() ==> #[trigger] spans@[i] is None,
        decreases n - spans@.len(),
    {
        spans.push(None);
    }
    spans
}

/// The extents of the spans of a grid are the box around its marks; without a span there is
/// no mark.
proof fn lemma_extents_are_box(badge: Badge, mask: Seq<bool>, width: int, height: int)
    requires
        badge.is_of(mask, width, height),
        mask.len() == width * height,
        0 < width,
    ensures
        forall|area: Rect|
            is_extent(badge.rows@, area.min_y, area.max_y) && is_extent(
                badge.columns@,
                area.min_x,
                area.max_x,
            ) ==> #[trigger] is_box(mask, width, area),
        (forall|i: int| 0 <= i < badge.rows@.len() ==> #[trigger] badge.rows@[i] is None)
            ==> forall|i: int| 0 <= i < mask.len() ==> !#[trigger] mask[i],
        (forall|i: int| 0 <= i < badge.columns@.len() ==> #[trigger] badge.columns@[i] is None)
            ==> forall|i: int| 0 <= i < mask.len() ==> !#[trigger] mask[i],
{
    assert forall|i: int| 0 <= i < mask.len() && #[trigger] mask[i] implies 0 <= i % width < width
        && 0 <= i / width < height && badge.rows@[i / width] is Some && badge.columns@[i
        % width] is Some by {
        raster::lemma_position(i, width, height);
        let (x, y): (int, int) = (i % width, i / width);
        assert(row_of(mask, width, y)[x]);
        assert(column_of(mask, width, height, x)[y]);
        assert(is_span(badge.rows@[y], row_of(mask, width, y)));
        assert(is_span(badge.columns@[x], column_of(mask, width, height, x)));
    }
    assert forall|y: int|
        0 <= y < height && #[trigger] badge.rows@[y] is Some implies exists|i: int|
        0 <= i < mask.len() && #[trigger] mask[i] && i / width == y by {
        assert(is_span(badge.rows@[y], row_of(mask, width, y)));
        let x = (badge.rows@[y]->0).0 as int;
        assert(row_of(mask, width, y)[x]);
        raster::lemma_cell(x, y, width, height);
        assert(mask[raster::cell(x, y, width)]);
    }
    assert forall|x: int|
        0 <= x < width && #[trigger] badge.columns@[x] is Some implies exists|i: int|
        0 <= i < mask.len() && #[trigger] mask[i] && i % width == x by {
        assert(is_span(badge.columns@[x], column_of(mask, width, height, x)));
        let y = (badge.columns@[x]->0).0 as int;
        assert(column_of(mask, width, height, x)[y]);
        raster::lemma_cell(x, y, width, height);
        assert(mask[raster::cell(x, y, width)]);
    }
}

/// The badge of an icon: the spans of its coloured pixels, where they look like a badge.
pub fn classify_badge(pixels: &[Pixel], width: usize, height: usize) -> (badge: Option<Badge>)
    requires
        pixels@.len() == width * height,
    ensures
        badge is Some <==> has_badge(pixels@, width as int, height as int),
        badge matches Some(found) ==> found.is_of(
            coloured_mask(pixels@),
            width as int,
            height as int,
        ),
{
    let ghost (w, h): (int, int) = (width as int, height as int);
    let ghost (seen, tinted) = (visible_mask(pixels@), coloured_mask(pixels@));
    assert(pixels.len() <= usize::MAX);
    let mut clear: usize = 0;
    let mut visible: usize = 0;
    let mut coloured: usize = 0;
    let mut rows: Vec<Span> = no_spans(height);
    let mut columns: Vec<Span> = no_spans(width);
    let mut artwork: Bounds = Bounds { min_x: width, min_y: height, max_x: 0, max_y: 0 };
    let mut index: usize = 0;
    proof {
        assert forall|x: int, y: int| 0 <= x < w && 0 <= y < h implies !marked_before(tinted, 0)[
        #[trigger] raster::cell(x, y, w)] by {
            raster::lemma_cell(x, y, w, h);
        }
    }
    while index < pixels.len()
        invariant
            index <= pixels@.len() == w * h <= usize::MAX,
            w == width,
            h == height,
            seen == visible_mask(pixels@),
            tinted == coloured_mask(pixels@),
            rows@.len() == h,
            columns@.len() == w,
            clear + visible == index,
            coloured <= visible,
            visible == count(seen.take(index as int)),
            coloured == count(tinted.take(index as int)),
            forall|y: int|
                0 <= y < h ==> is_span(
                    #[trigger] rows@[y],
                    row_of(marked_before(tinted, index as int), w, y),
                ),
            forall|x: int|
                0 <= x < w ==> is_span(
                    #[trigger] columns@[x],
                    column_of(marked_before(tinted, index as int), w, h, x),
                ),
            visible == 0 ==> artwork@ == (Rect { min_x: w, min_y: h, max_x: 0, max_y: 0 }),
            visible == 0 ==> forall|i: int| 0 <= i < index ==> !#[trigger] seen[i],
            visible > 0 ==> is_box(marked_before(seen, index as int), w, artwork@),
        decreases pixels@.len() - index,
    {
        let pixel: Pixel = pixels[index];
        let ghost n = index as int;
        proof {
            lemma_count_step(seen, n);
            lemma_count_step(tinted, n);
            raster::lemma_sides(w, h);
            raster::lemma_position(n, w, h);
            if !tinted[n] {
                assert(marked_before(tinted, n + 1) =~= marked_before(tinted, n));
            } else {
                lemma_mark_lines(tinted, w, h, n);
            }
            if !seen[n] {
                assert(marked_before(seen, n + 1) =~= marked_before(seen, n));
            }
        }
        if pixel[3] < tone::MIN_ALPHA {
            clear += 1;
        } else {
            let x: usize = index % width;
            let y: usize = index / width;
            let ghost before = artwork@;
            artwork.min_x = artwork.min_x.min(x);
            artwork.min_y = artwork.min_y.min(y);
            artwork.max_x = artwork.max_x.max(x);
            artwork.max_y = artwork.max_y.max(y);
            proof {
                if visible == 0 {
                    lemma_box_of_one(seen, w, n, artwork@);
                } else {
                    lemma_box_stretched(seen, w, n, before, artwork@);
                }
            }
            if tone::chroma(pixel) > tone::MAX_NEUTRAL_CHROMA {
                coloured += 1;
                let wider_row: (usize, usize) = include_span(rows[y], x);
                let wider_column: (usize, usize) = include_span(columns[x], y);
                proof {
                    lemma_span_widened(
                        rows@[y as int],
                        row_of(marked_before(tinted, n), w, y as int),
                        x as int,
                        wider_row,
                    );
                    lemma_span_widened(
                        columns@[x as int],
                        column_of(marked_before(tinted, n), w, h, x as int),
                        y as int,
                        wider_column,
                    );
                }
                rows[y] = Some(wider_row);
                columns[x] = Some(wider_column);
            }
            visible += 1;
        }
        index += 1;
    }
    let badge: Badge = Badge { rows, columns };
    proof {
        assert(seen.take(index as int) =~= seen);
        assert(tinted.take(index as int) =~= tinted);
        assert(marked_before(seen, index as int) =~= seen);
        assert(marked_before(tinted, index as int) =~= tinted);
    }
    if visible == 0 || !share::is_at_least(clear, pixels.len(), MIN_CLEAR_PERCENT) {
        return None;
    }
    proof {
        raster::lemma_sides(w, h);
        lemma_extents_are_box(badge, tinted, w, h);
        lemma_box_lies_in(seen, w, h, artwork@);
    }
    let bounds: Bounds = match Bounds::of(&badge.rows, &badge.columns) {
        Some(bounds) => bounds,
        None => return None,
    };
    proof {
        assert(is_box(tinted, w, bounds@));
        lemma_box_lies_in(tinted, w, h, bounds@);
        assert forall|a: Rect, b: Rect| #[trigger]
            is_box(tinted, w, a) && #[trigger] is_box(seen, w, b) implies a == bounds@ && b
            == artwork@ by {
            lemma_box_unique(tinted, w, a, bounds@);
            lemma_box_unique(seen, w, b, artwork@);
        }
        let (columns, rows): (int, int) = (bounds@.width(), bounds@.height());
        assert(0 <= columns * rows <= w * h) by (nonlinear_arith)
            requires
                0 <= columns <= w,
                0 <= rows <= h,
        ;
        assert(w + h - 1 <= w * h) by (nonlinear_arith)
            requires
                1 <= w,
                1 <= h,
        ;
    }
    if plausible_badge(bounds, artwork, coloured, visible, width, height) {
        Some(badge)
    } else {
        None
    }
}

} // verus!

//! Rows and columns count alike: what is decided on an icon does not change when its rows and
//! columns are exchanged.

use vstd::prelude::*;

use crate::badge;
use crate::badge::Rect;
use crate::contour;
use crate::decision::Verdict;
use crate::laws;
use crate::paint;
use crate::palette;
use crate::raster;
use crate::raster::{Pixel, RgbaImage};
use crate::sums;
use crate::theme::ThemeContext;
use crate::tone;

verus! {

/// `turned` is a grid with its rows and columns exchanged.
pub open spec fn is_turned<A>(grid: Seq<A>, turned: Seq<A>, width: int, height: int) -> bool {
    &&& 0 < width
    &&& 0 < height
    &&& grid.len() == width * height
    &&& turned.len() == width * height
    &&& forall|x: int, y: int|
        0 <= x < width && 0 <= y < height ==> turned[#[trigger] raster::cell(y, x, height)]
            == grid[raster::cell(x, y, width)]
}

/// The sum of the first `n` numbers of row `y`.
spec fn row_sum(grid: Seq<nat>, width: int, y: int, n: int) -> nat
    decreases n,
{
    if n <= 0 {
        0
    } else {
        row_sum(grid, width, y, n - 1) + grid[raster::cell(n - 1, y, width)]
    }
}

/// The sum of the first `n` numbers of column `x`.
spec fn column_sum(grid: Seq<nat>, width: int, x: int, n: int) -> nat
    decreases n,
{
    if n <= 0 {
        0
    } else {
        column_sum(grid, width, x, n - 1) + grid[raster::cell(x, n - 1, width)]
    }
}

/// The sum of the first `columns` numbers of each of the first `rows` rows.
spec fn block_sum(grid: Seq<nat>, width: int, columns: int, rows: int) -> nat
    decreases rows,
{
    if rows <= 0 {
        0
    } else {
        block_sum(grid, width, columns, rows - 1) + row_sum(grid, width, rows - 1, columns)
    }
}

/// One number more of a row adds to the sum up to it.
proof fn lemma_row_prefix(grid: Seq<nat>, width: int, height: int, y: int, n: int)
    requires
        grid.len() == width * height,
        0 <= y < height,
        0 <= n <= width,
    ensures
        0 <= y * width + n <= grid.len(),
        sums::sum_of(grid.take(y * width + n)) == sums::sum_of(grid.take(y * width)) + row_sum(
            grid,
            width,
            y,
            n,
        ),
    decreases n,
{
    if n > 0 {
        lemma_row_prefix(grid, width, height, y, n - 1);
        raster::lemma_cell(n - 1, y, width, height);
        let place = raster::cell(n - 1, y, width);
        assert(grid.take(place + 1).drop_last() =~= grid.take(place));
    } else {
        assert(0 <= y * width <= width * height) by (nonlinear_arith)
            requires
                0 <= y < height,
                0 <= width,
        ;
    }
}

/// The sum of the first rows is the sum of the numbers before the next one.
proof fn lemma_block_prefix(grid: Seq<nat>, width: int, height: int, rows: int)
    requires
        grid.len() == width * height,
        0 < width,
        0 <= rows <= height,
    ensures
        0 <= rows * width <= grid.len(),
        sums::sum_of(grid.take(rows * width)) == block_sum(grid, width, width, rows),
    decreases rows,
{
    if rows > 0 {
        lemma_block_prefix(grid, width, height, rows - 1);
        lemma_row_prefix(grid, width, height, rows - 1, width);
        assert((rows - 1) * width + width == rows * width) by (nonlinear_arith);
    } else {
        assert(0 * width == 0);
        assert(0 <= width * height) by (nonlinear_arith)
            requires
                0 < width,
                0 <= height,
        ;
        assert(grid.take(0) =~= Seq::empty());
    }
}

/// A column more adds its sum to that of a block.
proof fn lemma_block_column(grid: Seq<nat>, width: int, columns: int, rows: int)
    requires
        0 <= columns,
    ensures
        block_sum(grid, width, columns + 1, rows) == block_sum(grid, width, columns, rows)
            + column_sum(grid, width, columns, rows),
    decreases rows,
{
    if rows > 0 {
        lemma_block_column(grid, width, columns, rows - 1);
    }
}

/// A block without columns has nothing to add up.
proof fn lemma_block_empty(grid: Seq<nat>, width: int, rows: int)
    ensures
        block_sum(grid, width, 0, rows) == 0,
    decreases rows,
{
    if rows > 0 {
        lemma_block_empty(grid, width, rows - 1);
    }
}

/// A row of a turned grid has the sum of the column it was.
proof fn lemma_turned_row(
    grid: Seq<nat>,
    turned: Seq<nat>,
    width: int,
    height: int,
    x: int,
    n: int,
)
    requires
        is_turned(grid, turned, width, height),
        0 <= x < width,
        0 <= n <= height,
    ensures
        row_sum(turned, height, x, n) == column_sum(grid, width, x, n),
    decreases n,
{
    if n > 0 {
        lemma_turned_row(grid, turned, width, height, x, n - 1);
    }
}

/// The first rows of a turned grid have the sum of the columns they were.
proof fn lemma_turned_block(
    grid: Seq<nat>,
    turned: Seq<nat>,
    width: int,
    height: int,
    columns: int,
)
    requires
        is_turned(grid, turned, width, height),
        0 <= columns <= width,
    ensures
        block_sum(turned, height, height, columns) == block_sum(grid, width, columns, height),
    decreases columns,
{
    if columns > 0 {
        lemma_turned_block(grid, turned, width, height, columns - 1);
        lemma_turned_row(grid, turned, width, height, columns - 1, height);
        lemma_block_column(grid, width, columns - 1, height);
    } else {
        lemma_block_empty(grid, width, height);
    }
}

/// Row by row or column by column, a grid has one sum.
proof fn lemma_turned_sum(grid: Seq<nat>, turned: Seq<nat>, width: int, height: int)
    requires
        is_turned(grid, turned, width, height),
    ensures
        sums::sum_of(turned) == sums::sum_of(grid),
{
    assert(width * height == height * width) by (nonlinear_arith);
    lemma_block_prefix(grid, width, height, height);
    lemma_block_prefix(turned, height, width, width);
    lemma_turned_block(grid, turned, width, height, width);
    assert(grid.take(height * width) =~= grid);
    assert(turned.take(width * height) =~= turned);
}

/// Exchanging rows and columns twice gives the grid back.
proof fn lemma_turned_back<A>(grid: Seq<A>, turned: Seq<A>, width: int, height: int)
    requires
        is_turned(grid, turned, width, height),
    ensures
        is_turned(turned, grid, height, width),
{
    assert(width * height == height * width) by (nonlinear_arith);
    assert forall|x: int, y: int| 0 <= x < height && 0 <= y < width implies grid[
    #[trigger] raster::cell(y, x, width)] == turned[raster::cell(x, y, height)] by {
        assert(turned[raster::cell(x, y, height)] == grid[raster::cell(y, x, width)]);
    }
}

/// Where a place of a grid stands once rows and columns are exchanged.
spec fn place_turned(i: int, width: int, height: int) -> int {
    raster::cell(i / width, i % width, height)
}

/// A place of a grid and the place it is turned to.
proof fn lemma_place_turned(i: int, width: int, height: int)
    requires
        0 <= i < width * height,
        0 < width,
        0 < height,
    ensures
        0 <= i % width < width,
        0 <= i / width < height,
        raster::cell(i % width, i / width, width) == i,
        0 <= place_turned(i, width, height) < width * height,
        place_turned(i, width, height) % height == i / width,
        place_turned(i, width, height) / height == i % width,
        place_turned(place_turned(i, width, height), height, width) == i,
{
    raster::lemma_position(i, width, height);
    raster::lemma_cell(i / width, i % width, height, width);
    assert(width * height == height * width) by (nonlinear_arith);
}

/// What stands at a place stands at the place it is turned to.
proof fn lemma_turned_at<A>(grid: Seq<A>, turned: Seq<A>, width: int, height: int, i: int)
    requires
        is_turned(grid, turned, width, height),
        0 <= i < grid.len(),
    ensures
        0 <= place_turned(i, width, height) < turned.len(),
        turned[place_turned(i, width, height)] == grid[i],
{
    lemma_place_turned(i, width, height);
}

/// Places that are near each other stay so.
proof fn lemma_near_turned(i: int, j: int, width: int, height: int, radius: int)
    requires
        0 <= i < width * height,
        0 < width,
        0 < height,
        palette::is_near(i, j, width, height, radius),
    ensures
        palette::is_near(
            place_turned(i, width, height),
            place_turned(j, width, height),
            height,
            width,
            radius,
        ),
{
    lemma_place_turned(i, width, height);
    lemma_place_turned(j, width, height);
    assert(width * height == height * width) by (nonlinear_arith);
}

/// Exchanging rows and columns keeps the mass of every range of tones.
proof fn lemma_turned_mass(
    grid: Seq<Option<Pixel>>,
    turned: Seq<Option<Pixel>>,
    width: int,
    height: int,
    low: int,
    high: int,
)
    requires
        is_turned(grid, turned, width, height),
    ensures
        tone::mass(turned, low, high) == tone::mass(grid, low, high),
{
    sums::lemma_mass_is_sum(grid, low, high);
    sums::lemma_mass_is_sum(turned, low, high);
    let (a, b) = (sums::weights_of(grid, low, high), sums::weights_of(turned, low, high));
    assert forall|x: int, y: int| 0 <= x < width && 0 <= y < height implies b[
    #[trigger] raster::cell(y, x, height)] == a[raster::cell(x, y, width)] by {
        lemma_cells_in_range(x, y, width, height);
    }
    lemma_turned_sum(a, b, width, height);
}

/// A cell stands in the grid both ways.
proof fn lemma_cells_in_range(x: int, y: int, width: int, height: int)
    requires
        0 <= x < width,
        0 <= y < height,
    ensures
        0 <= raster::cell(x, y, width) < width * height,
        0 <= raster::cell(y, x, height) < width * height,
        raster::cell(x, y, width) % width == x,
        raster::cell(x, y, width) / width == y,
        raster::cell(y, x, height) % height == y,
        raster::cell(y, x, height) / height == x,
{
    raster::lemma_cell(x, y, width, height);
    raster::lemma_cell(y, x, height, width);
    assert(width * height == height * width) by (nonlinear_arith);
}

/// Exchanging rows and columns keeps the number of marks.
proof fn lemma_turned_count(grid: Seq<bool>, turned: Seq<bool>, width: int, height: int)
    requires
        is_turned(grid, turned, width, height),
    ensures
        badge::count(turned) == badge::count(grid),
{
    sums::lemma_count_is_sum(grid);
    sums::lemma_count_is_sum(turned);
    let (a, b) = (sums::ones_of(grid), sums::ones_of(turned));
    assert forall|x: int, y: int| 0 <= x < width && 0 <= y < height implies b[
    #[trigger] raster::cell(y, x, height)] == a[raster::cell(x, y, width)] by {
        lemma_cells_in_range(x, y, width, height);
    }
    lemma_turned_sum(a, b, width, height);
}

/// Exchanging rows and columns keeps the darkest and the brightest tone.
proof fn lemma_turned_tones(
    grid: Seq<Option<Pixel>>,
    turned: Seq<Option<Pixel>>,
    width: int,
    height: int,
)
    requires
        is_turned(grid, turned, width, height),
    ensures
        tone::lowest_tone(turned) == tone::lowest_tone(grid),
        tone::highest_tone(turned) == tone::highest_tone(grid),
{
    tone::lemma_lowest_tone(grid);
    tone::lemma_lowest_tone(turned);
    tone::lemma_highest_tone(grid);
    tone::lemma_highest_tone(turned);
    lemma_turned_back(grid, turned, width, height);
    assert forall|i: int| 0 <= i < grid.len() implies exists|j: int|
        0 <= j < turned.len() && turned[j] == #[trigger] grid[i] by {
        lemma_turned_at(grid, turned, width, height, i);
    }
    assert forall|j: int| 0 <= j < turned.len() implies exists|i: int|
        0 <= i < grid.len() && grid[i] == #[trigger] turned[j] by {
        lemma_turned_at(turned, grid, height, width, j);
    }
}

/// The middle of a solid area stays one.
proof fn lemma_turned_solid(
    grid: Seq<Option<Pixel>>,
    turned: Seq<Option<Pixel>>,
    width: int,
    height: int,
    i: int,
)
    requires
        is_turned(grid, turned, width, height),
        0 <= i < grid.len(),
        palette::is_solid(grid, width, height, i),
    ensures
        palette::is_solid(turned, height, width, place_turned(i, width, height)),
{
    let t = place_turned(i, width, height);
    lemma_place_turned(i, width, height);
    lemma_turned_at(grid, turned, width, height, i);
    assert(width * height == height * width) by (nonlinear_arith);
    assert forall|j: int| #[trigger] palette::is_near(t, j, height, width, 1) implies (
    turned[j] matches Some(other) && tone::is_close(
        tone::tone_of(other),
        tone::tone_of(turned[t]->0),
    )) by {
        lemma_near_turned(t, j, height, width, 1);
        lemma_place_turned(j, height, width);
        lemma_turned_at(grid, turned, width, height, place_turned(j, height, width));
    }
}

/// A tone that an edge can reach can be reached still.
proof fn lemma_turned_reach(
    grid: Seq<Option<Pixel>>,
    turned: Seq<Option<Pixel>>,
    width: int,
    height: int,
    i: int,
    t: int,
)
    requires
        is_turned(grid, turned, width, height),
        0 <= i < grid.len(),
        palette::reaches_tone(grid, width, height, i, t),
    ensures
        palette::reaches_tone(turned, height, width, place_turned(i, width, height), t),
{
    let radius = palette::ANTIALIAS_RADIUS as int;
    let j = choose|j: int| #[trigger]
        palette::is_near(i, j, width, height, radius) && (grid[j] matches Some(other)
            && tone::is_close(tone::tone_of(other), t));
    lemma_near_turned(i, j, width, height, radius);
    lemma_turned_at(grid, turned, width, height, j);
}

/// A gap that an edge can reach can be reached still.
proof fn lemma_turned_gap(
    grid: Seq<Option<Pixel>>,
    turned: Seq<Option<Pixel>>,
    width: int,
    height: int,
    i: int,
)
    requires
        is_turned(grid, turned, width, height),
        0 <= i < grid.len(),
        palette::reaches_gap(grid, width, height, i),
    ensures
        palette::reaches_gap(turned, height, width, place_turned(i, width, height)),
{
    let radius = palette::ANTIALIAS_RADIUS as int;
    lemma_place_turned(i, width, height);
    if !palette::is_at_border(width, height, i) {
        let j = choose|j: int| #[trigger]
            palette::is_near(i, j, width, height, radius) && grid[j] is None;
        lemma_near_turned(i, j, width, height, radius);
        lemma_turned_at(grid, turned, width, height, j);
    }
}

/// A sample that two inks explain is explained still.
proof fn lemma_turned_support(
    grid: Seq<Option<Pixel>>,
    turned: Seq<Option<Pixel>>,
    width: int,
    height: int,
    low: int,
    high: int,
    i: int,
)
    requires
        is_turned(grid, turned, width, height),
        0 <= i < grid.len(),
        palette::is_supported(grid, width, height, low, high, i),
    ensures
        palette::is_supported(turned, height, width, low, high, place_turned(i, width, height)),
{
    lemma_turned_at(grid, turned, width, height, i);
    if palette::reaches_gap(grid, width, height, i) {
        lemma_turned_gap(grid, turned, width, height, i);
    }
    if palette::reaches_tone(grid, width, height, i, low) {
        lemma_turned_reach(grid, turned, width, height, i, low);
    }
    if palette::reaches_tone(grid, width, height, i, high) {
        lemma_turned_reach(grid, turned, width, height, i, high);
    }
}

/// Exchanging rows and columns of samples exchanges those of the samples in solid areas.
proof fn lemma_turned_solids(
    grid: Seq<Option<Pixel>>,
    turned: Seq<Option<Pixel>>,
    width: int,
    height: int,
)
    requires
        is_turned(grid, turned, width, height),
    ensures
        is_turned(
            palette::solid_only(grid, width, height),
            palette::solid_only(turned, height, width),
            width,
            height,
        ),
{
    let (a, b) = (
        palette::solid_only(grid, width, height),
        palette::solid_only(turned, height, width),
    );
    lemma_turned_back(grid, turned, width, height);
    assert forall|x: int, y: int| 0 <= x < width && 0 <= y < height implies b[
    #[trigger] raster::cell(y, x, height)] == a[raster::cell(x, y, width)] by {
        lemma_cells_in_range(x, y, width, height);
        let (i, t) = (raster::cell(x, y, width), raster::cell(y, x, height));
        if palette::is_solid(grid, width, height, i) {
            lemma_turned_solid(grid, turned, width, height, i);
        }
        if palette::is_solid(turned, height, width, t) {
            lemma_turned_solid(turned, grid, height, width, t);
        }
    }
}

/// Exchanging rows and columns of samples exchanges those of the samples that two inks
/// explain.
proof fn lemma_turned_supported(
    grid: Seq<Option<Pixel>>,
    turned: Seq<Option<Pixel>>,
    width: int,
    height: int,
    low: int,
    high: int,
)
    requires
        is_turned(grid, turned, width, height),
    ensures
        is_turned(
            palette::supported_only(grid, width, height, low, high),
            palette::supported_only(turned, height, width, low, high),
            width,
            height,
        ),
{
    let (a, b) = (
        palette::supported_only(grid, width, height, low, high),
        palette::supported_only(turned, height, width, low, high),
    );
    lemma_turned_back(grid, turned, width, height);
    assert forall|x: int, y: int| 0 <= x < width && 0 <= y < height implies b[
    #[trigger] raster::cell(y, x, height)] == a[raster::cell(x, y, width)] by {
        lemma_cells_in_range(x, y, width, height);
        let (i, t) = (raster::cell(x, y, width), raster::cell(y, x, height));
        if palette::is_supported(grid, width, height, low, high, i) {
            lemma_turned_support(grid, turned, width, height, low, high, i);
        }
        if palette::is_supported(turned, height, width, low, high, t) {
            lemma_turned_support(turned, grid, height, width, low, high, t);
        }
    }
}

/// The palette of an icon does not change when its rows and columns are exchanged.
pub proof fn law_palettes_count_both_ways(
    samples: Seq<Option<Pixel>>,
    turned: Seq<Option<Pixel>>,
    width: int,
    height: int,
)
    requires
        0 < width,
        0 < height,
        samples.len() == width * height,
        turned.len() == width * height,
        forall|x: int, y: int|
            0 <= x < width && 0 <= y < height ==> turned[#[trigger] raster::cell(y, x, height)]
                == samples[raster::cell(x, y, width)],
    ensures
        palette::solid_palette(turned, height, width) == palette::solid_palette(
            samples,
            width,
            height,
        ),
{
    let solid = palette::solid_only(samples, width, height);
    let solid_turned = palette::solid_only(turned, height, width);
    lemma_turned_solids(samples, turned, width, height);
    lemma_turned_tones(solid, solid_turned, width, height);
    if tone::lowest_tone(solid) is Some && tone::highest_tone(solid) is Some {
        let low = tone::lowest_tone(solid)->0;
        let high = tone::highest_tone(solid)->0;
        let tolerance = tone::TONE_TOLERANCE as int;
        let inked = palette::inked_only(solid, low, high);
        let inked_turned = palette::inked_only(solid_turned, low, high);
        assert forall|x: int, y: int| 0 <= x < width && 0 <= y < height implies inked_turned[
        #[trigger] raster::cell(y, x, height)] == inked[raster::cell(x, y, width)] by {
            lemma_cells_in_range(x, y, width, height);
        }
        lemma_turned_mass(inked, inked_turned, width, height, 0, 255);
        lemma_turned_mass(solid, solid_turned, width, height, 0, 255);
        lemma_turned_supported(samples, turned, width, height, low, high);
        lemma_turned_mass(
            palette::supported_only(samples, width, height, low, high),
            palette::supported_only(turned, height, width, low, high),
            width,
            height,
            0,
            255,
        );
        lemma_turned_mass(samples, turned, width, height, 0, 255);
        lemma_turned_mass(samples, turned, width, height, low - tolerance, low + tolerance);
        lemma_turned_mass(samples, turned, width, height, high - tolerance, high + tolerance);
    }
}

/// Contours are as complex as those of the grid with its rows and columns exchanged.
pub proof fn law_contours_count_both_ways(
    levels: Seq<Option<u8>>,
    turned: Seq<Option<u8>>,
    width: int,
    height: int,
    low: int,
    high: int,
    high_is_primary: bool,
)
    requires
        is_turned(levels, turned, width, height),
    ensures
        contour::has_complex_contours(turned, height, width, low, high, high_is_primary)
            <==> contour::has_complex_contours(
            levels,
            width,
            height,
            low,
            high,
            high_is_primary,
        ),
{
    lemma_turned_lines(levels, turned, width, height, false, low, high, high_is_primary, height);
    lemma_turned_lines(levels, turned, width, height, true, low, high, high_is_primary, width);
}

/// The first `n` lines one way are as visible and as complex as the first `n` lines the other
/// way, once rows and columns are exchanged.
proof fn lemma_turned_lines(
    levels: Seq<Option<u8>>,
    turned: Seq<Option<u8>>,
    width: int,
    height: int,
    vertical: bool,
    low: int,
    high: int,
    high_is_primary: bool,
    n: int,
)
    requires
        is_turned(levels, turned, width, height),
        0 <= n <= contour::line_count(width, height, vertical),
    ensures
        contour::visible_lines(turned, height, width, !vertical, n) == contour::visible_lines(
            levels,
            width,
            height,
            vertical,
            n,
        ),
        contour::complex_lines(
            turned,
            height,
            width,
            !vertical,
            low,
            high,
            high_is_primary,
            n,
        ) == contour::complex_lines(
            levels,
            width,
            height,
            vertical,
            low,
            high,
            high_is_primary,
            n,
        ),
    decreases n,
{
    if n > 0 {
        lemma_turned_lines(
            levels,
            turned,
            width,
            height,
            vertical,
            low,
            high,
            high_is_primary,
            n - 1,
        );
        assert(contour::line_at(turned, height, width, !vertical, n - 1) =~= contour::line_at(
            levels,
            width,
            height,
            vertical,
            n - 1,
        ));
    }
}

/// The decision on samples does not change when their rows and columns are exchanged.
proof fn lemma_turned_judgement(
    samples: Seq<Option<Pixel>>,
    turned: Seq<Option<Pixel>>,
    width: int,
    height: int,
)
    requires
        is_turned(samples, turned, width, height),
    ensures
        paint::judge(turned, height, width) == paint::judge(samples, width, height),
{
    lemma_turned_back(samples, turned, width, height);
    if paint::has_colour(samples) {
        lemma_turned_colour(samples, turned, width, height);
    }
    if paint::has_colour(turned) {
        lemma_turned_colour(turned, samples, height, width);
    }
    lemma_turned_tones(samples, turned, width, height);
    if tone::lowest_tone(samples) is Some && tone::highest_tone(samples) is Some {
        let low = tone::lowest_tone(samples)->0;
        let high = tone::highest_tone(samples)->0;
        let tolerance = tone::TONE_TOLERANCE as int;
        lemma_turned_mass(samples, turned, width, height, low, low + tolerance);
        lemma_turned_mass(samples, turned, width, height, high - tolerance, high);
        lemma_turned_mass(samples, turned, width, height, 0, 255);
        let high_is_primary = tone::mass(samples, high - tolerance, high) >= tone::mass(
            samples,
            low,
            low + tolerance,
        );
        let (a, b) = (paint::levels_of(samples), paint::levels_of(turned));
        assert forall|x: int, y: int| 0 <= x < width && 0 <= y < height implies b[
        #[trigger] raster::cell(y, x, height)] == a[raster::cell(x, y, width)] by {
            lemma_cells_in_range(x, y, width, height);
        }
        law_contours_count_both_ways(a, b, width, height, low, high, high_is_primary);
        law_palettes_count_both_ways(samples, turned, width, height);
    }
}

/// Colour among samples stays.
proof fn lemma_turned_colour(
    samples: Seq<Option<Pixel>>,
    turned: Seq<Option<Pixel>>,
    width: int,
    height: int,
)
    requires
        is_turned(samples, turned, width, height),
        paint::has_colour(samples),
    ensures
        paint::has_colour(turned),
{
    let i = choose|i: int|
        0 <= i < samples.len() && (#[trigger] samples[i] matches Some(pixel) && tone::is_coloured(
            pixel,
        ));
    lemma_turned_at(samples, turned, width, height, i);
    assert(turned[place_turned(i, width, height)] is Some);
}

/// A box with its rows and columns exchanged.
spec fn box_turned(area: Rect) -> Rect {
    Rect { min_x: area.min_y, min_y: area.min_x, max_x: area.max_y, max_y: area.max_x }
}

/// The box around marks is turned with them.
proof fn lemma_turned_box(
    mask: Seq<bool>,
    turned: Seq<bool>,
    width: int,
    height: int,
    area: Rect,
)
    requires
        is_turned(mask, turned, width, height),
        badge::is_box(mask, width, area),
    ensures
        badge::is_box(turned, height, box_turned(area)),
{
    lemma_turned_back(mask, turned, width, height);
    assert forall|i: int| 0 <= i < turned.len() && #[trigger] turned[i] implies area.min_y <= i
        % height <= area.max_y && area.min_x <= i / height <= area.max_x by {
        lemma_place_turned(i, height, width);
        lemma_turned_at(turned, mask, height, width, i);
    }
    assert forall|i: int| 0 <= i < mask.len() && #[trigger] mask[i] implies {
        let t = place_turned(i, width, height);
        0 <= t < turned.len() && turned[t] && t % height == i / width && t / height == i % width
    } by {
        lemma_place_turned(i, width, height);
        lemma_turned_at(mask, turned, width, height, i);
    }
    let left = choose|i: int|
        0 <= i < mask.len() && #[trigger] mask[i] && i % width == area.min_x;
    let right = choose|i: int|
        0 <= i < mask.len() && #[trigger] mask[i] && i % width == area.max_x;
    let top = choose|i: int|
        0 <= i < mask.len() && #[trigger] mask[i] && i / width == area.min_y;
    let bottom = choose|i: int|
        0 <= i < mask.len() && #[trigger] mask[i] && i / width == area.max_y;
    assert(turned[place_turned(left, width, height)]);
    assert(turned[place_turned(right, width, height)]);
    assert(turned[place_turned(top, width, height)]);
    assert(turned[place_turned(bottom, width, height)]);
}

/// The masks of an icon are turned with it.
proof fn lemma_turned_masks(pixels: Seq<Pixel>, turned: Seq<Pixel>, width: int, height: int)
    requires
        is_turned(pixels, turned, width, height),
    ensures
        is_turned(badge::visible_mask(pixels), badge::visible_mask(turned), width, height),
        is_turned(badge::coloured_mask(pixels), badge::coloured_mask(turned), width, height),
{
    assert forall|x: int, y: int| 0 <= x < width && 0 <= y < height implies {
        let (i, t) = (raster::cell(x, y, width), #[trigger] raster::cell(y, x, height));
        &&& badge::visible_mask(turned)[t] == badge::visible_mask(pixels)[i]
        &&& badge::coloured_mask(turned)[t] == badge::coloured_mask(pixels)[i]
    } by {
        lemma_cells_in_range(x, y, width, height);
    }
}

/// An icon with a badge has one still.
proof fn lemma_turned_badge(pixels: Seq<Pixel>, turned: Seq<Pixel>, width: int, height: int)
    requires
        is_turned(pixels, turned, width, height),
        badge::has_badge(pixels, width, height),
    ensures
        badge::has_badge(turned, height, width),
{
    let (visible, coloured) = (badge::visible_mask(pixels), badge::coloured_mask(pixels));
    let (visible_turned, coloured_turned) = (
        badge::visible_mask(turned),
        badge::coloured_mask(turned),
    );
    lemma_turned_masks(pixels, turned, width, height);
    lemma_turned_count(visible, visible_turned, width, height);
    lemma_turned_count(coloured, coloured_turned, width, height);
    let (bounds, artwork) = choose|bounds: Rect, artwork: Rect|
        {
            &&& #[trigger] badge::is_box(coloured, width, bounds)
            &&& #[trigger] badge::is_box(visible, width, artwork)
            &&& badge::is_plausible(
                bounds,
                artwork,
                badge::count(coloured) as int,
                badge::count(visible) as int,
                width,
                height,
            )
        };
    lemma_turned_box(coloured, coloured_turned, width, height, bounds);
    lemma_turned_box(visible, visible_turned, width, height, artwork);
    assert(width * height == height * width) by (nonlinear_arith);
    assert(bounds.width() * bounds.height() == bounds.height() * bounds.width())
        by (nonlinear_arith);
    assert(badge::is_plausible(
        box_turned(bounds),
        box_turned(artwork),
        badge::count(coloured_turned) as int,
        badge::count(visible_turned) as int,
        height,
        width,
    ));
}

/// The cells that marks enclose are turned with them.
proof fn lemma_turned_covered(
    mask: Seq<bool>,
    turned: Seq<bool>,
    width: int,
    height: int,
    x: int,
    y: int,
)
    requires
        is_turned(mask, turned, width, height),
        0 <= x < width,
        0 <= y < height,
    ensures
        badge::is_covered(turned, height, width, y, x) == badge::is_covered(
            mask,
            width,
            height,
            x,
            y,
        ),
{
    assert(badge::row_of(turned, height, x) =~= badge::column_of(mask, width, height, x));
    assert(badge::column_of(turned, height, width, y) =~= badge::row_of(mask, width, y));
}

/// The cells that touch an enclosed one touch one still.
proof fn lemma_turned_beside(
    mask: Seq<bool>,
    turned: Seq<bool>,
    width: int,
    height: int,
    x: int,
    y: int,
)
    requires
        is_turned(mask, turned, width, height),
        badge::is_beside_covered(mask, width, height, x, y),
    ensures
        badge::is_beside_covered(turned, height, width, y, x),
{
    let margin = badge::BADGE_ANALYSIS_MARGIN as int;
    let (column, row) = choose|column: int, row: int|
        {
            &&& 0 <= column < width
            &&& 0 <= row < height
            &&& -margin <= column - x <= margin
            &&& -margin <= row - y <= margin
            &&& #[trigger] badge::is_covered(mask, width, height, column, row)
        };
    lemma_turned_covered(mask, turned, width, height, column, row);
    assert(badge::is_covered(turned, height, width, row, column));
}

/// The badge of an icon and its rim are turned with it.
proof fn lemma_turned_badge_cells(
    pixels: Seq<Pixel>,
    turned: Seq<Pixel>,
    width: int,
    height: int,
    x: int,
    y: int,
)
    requires
        is_turned(pixels, turned, width, height),
        0 <= x < width,
        0 <= y < height,
    ensures
        badge::in_badge(turned, height, width, raster::cell(y, x, height)) == badge::in_badge(
            pixels,
            width,
            height,
            raster::cell(x, y, width),
        ),
        badge::beside_badge(turned, height, width, raster::cell(y, x, height))
            == badge::beside_badge(pixels, width, height, raster::cell(x, y, width)),
{
    let (mask, mask_turned) = (badge::coloured_mask(pixels), badge::coloured_mask(turned));
    lemma_cells_in_range(x, y, width, height);
    lemma_turned_back(pixels, turned, width, height);
    lemma_turned_masks(pixels, turned, width, height);
    lemma_turned_back(mask, mask_turned, width, height);
    if badge::has_badge(pixels, width, height) {
        lemma_turned_badge(pixels, turned, width, height);
    }
    if badge::has_badge(turned, height, width) {
        lemma_turned_badge(turned, pixels, height, width);
    }
    lemma_turned_covered(mask, mask_turned, width, height, x, y);
    if badge::is_beside_covered(mask, width, height, x, y) {
        lemma_turned_beside(mask, mask_turned, width, height, x, y);
    }
    if badge::is_beside_covered(mask_turned, height, width, y, x) {
        lemma_turned_beside(mask_turned, mask, height, width, y, x);
    }
}

/// `turned` is an image with its rows and columns exchanged.
pub open spec fn is_image_turned(image: RgbaImage, turned: RgbaImage) -> bool {
    &&& image.is_valid()
    &&& turned.is_valid()
    &&& turned.width == image.height
    &&& turned.height == image.width
    &&& forall|x: int, y: int|
        0 <= x < image.width && 0 <= y < image.height ==> laws::pixels_in(
            turned,
        )[#[trigger] raster::cell(y, x, image.height as int)] == laws::pixels_in(
            image,
        )[raster::cell(x, y, image.width as int)]
}

/// The pixels of an image are turned with it.
proof fn lemma_turned_pixels(image: RgbaImage, turned: RgbaImage)
    requires
        is_image_turned(image, turned),
    ensures
        is_turned(
            laws::pixels_in(image),
            laws::pixels_in(turned),
            image.width as int,
            image.height as int,
        ),
{
    assert(image.width * image.height == image.height * image.width) by (nonlinear_arith);
}

/// The decision on an image does not change when its rows and columns are exchanged.
pub proof fn law_decisions_count_both_ways(
    image: RgbaImage,
    turned: RgbaImage,
    colour_icons: bool,
    explicit: bool,
)
    requires
        is_image_turned(image, turned),
    ensures
        paint::decide(turned, colour_icons, explicit) == paint::decide(
            image,
            colour_icons,
            explicit,
        ),
{
    let (width, height) = (image.width as int, image.height as int);
    let (pixels, pixels_turned) = (laws::pixels_in(image), laws::pixels_in(turned));
    lemma_turned_pixels(image, turned);
    let samples = paint::samples_of(pixels, width, height);
    let samples_turned = paint::samples_of(pixels_turned, height, width);
    assert forall|x: int, y: int| 0 <= x < width && 0 <= y < height implies samples_turned[
    #[trigger] raster::cell(y, x, height)] == samples[raster::cell(x, y, width)] by {
        lemma_cells_in_range(x, y, width, height);
        lemma_turned_badge_cells(pixels, pixels_turned, width, height, x, y);
    }
    lemma_turned_judgement(samples, samples_turned, width, height);
}

/// Painting an image and exchanging its rows and columns gives the same pixels in either
/// order.
pub proof fn law_painting_counts_both_ways(
    image: RgbaImage,
    turned: RgbaImage,
    theme: ThemeContext,
    verdict: Verdict,
)
    requires
        is_image_turned(image, turned),
    ensures
        is_turned(
            laws::painted_pixels(image, theme, verdict),
            laws::painted_pixels(turned, theme, verdict),
            image.width as int,
            image.height as int,
        ),
{
    let (width, height) = (image.width as int, image.height as int);
    let (pixels, pixels_turned) = (laws::pixels_in(image), laws::pixels_in(turned));
    let a = laws::painted_pixels(image, theme, verdict);
    let b = laws::painted_pixels(turned, theme, verdict);
    lemma_turned_pixels(image, turned);
    assert forall|x: int, y: int| 0 <= x < width && 0 <= y < height implies b[
    #[trigger] raster::cell(y, x, height)] == a[raster::cell(x, y, width)] by {
        lemma_cells_in_range(x, y, width, height);
        lemma_turned_badge_cells(pixels, pixels_turned, width, height, x, y);
        let (i, t) = (raster::cell(x, y, width), raster::cell(y, x, height));
        assert(b[t] =~= a[i]);
    }
}

} // verus!

//! The parts that decisions are made of, one by one.

use icon_paint::badge::{classify_badge, include_span, plausible_badge, span_covers, Badge, Bounds};
use icon_paint::contour::complex_contours;
use icon_paint::decision::PaintDecision;
use icon_paint::paint::classify;
use icon_paint::palette::{antialiased_palette, explained, neighbourhood};
use icon_paint::raster::{pixels, RgbaImage};
use icon_paint::share::{is_at_least, is_at_most};
use icon_paint::tone::{chroma, close, intensity, Histogram};

fn grey(value: u8) -> [u8; 4] {
    [value, value, value, 255]
}

#[test]
fn intensity_weighs_the_channels_and_rounds() {
    assert_eq!(intensity([0, 0, 0, 255]), 0);
    assert_eq!(intensity([255, 255, 255, 0]), 255);
    assert_eq!(intensity([255, 0, 0, 255]), 54);
    assert_eq!(intensity([0, 255, 0, 255]), 182);
    assert_eq!(intensity([0, 0, 255, 255]), 19);
    assert_eq!(intensity([10, 20, 30, 255]), 19);
    for value in 0..=255 {
        assert_eq!(intensity(grey(value)), value);
    }
}

#[test]
fn chroma_spans_the_channels_in_any_order() {
    assert_eq!(chroma([10, 200, 90, 0]), 190);
    assert_eq!(chroma([200, 90, 10, 0]), 190);
    assert_eq!(chroma([90, 10, 200, 0]), 190);
    assert_eq!(chroma(grey(77)), 0);
}

#[test]
fn close_tones_differ_by_the_tolerance_at_most() {
    assert!(close(100, 112));
    assert!(close(112, 100));
    assert!(!close(100, 113));
    assert!(!close(113, 100));
    assert!(close(0, 0));
    assert!(!close(0, 255));
}

#[test]
fn histograms_gather_alpha_by_tone() {
    let mut histogram = Histogram::new();
    assert_eq!(histogram.lowest(), None);
    assert_eq!(histogram.highest(), None);
    histogram.add([40, 40, 40, 16]);
    histogram.add([40, 40, 40, 200]);
    histogram.add([220, 220, 220, 100]);
    assert_eq!(histogram.lowest(), Some(40));
    assert_eq!(histogram.highest(), Some(220));
    assert_eq!(histogram.at(40), 216);
    assert_eq!(histogram.between(0, 255), 316);
    assert_eq!(histogram.between(41, 220), 100);
    assert_eq!(histogram.between(41, 219), 0);
    assert_eq!(histogram.between(200, 100), 0);
}

#[test]
fn shares_do_not_overflow() {
    assert!(is_at_most(usize::MAX, usize::MAX, 100));
    assert!(!is_at_most(usize::MAX, usize::MAX, 99));
    assert!(is_at_least(usize::MAX, usize::MAX, 100));
    assert!(is_at_most(40, 100, 40));
    assert!(!is_at_most(41, 100, 40));
    assert!(is_at_least(10, 100, 10));
    assert!(!is_at_least(9, 100, 10));
    assert!(is_at_most(0, 0, 20));
    assert!(explained(98, 100));
    assert!(!explained(97, 100));
    assert!(explained(0, 0));
}

#[test]
fn grids_are_filled_exactly_or_not_at_all() {
    let image = RgbaImage { width: 2, height: 1, bytes: vec![1, 2, 3, 4, 5, 6, 7, 8] };
    assert_eq!(pixels(&image), Some((2, 1, vec![[1, 2, 3, 4], [5, 6, 7, 8]])));
    let short = RgbaImage { width: 2, height: 1, bytes: vec![1, 2, 3, 4] };
    assert_eq!(pixels(&short), None);
    let long = RgbaImage { width: 1, height: 1, bytes: vec![0; 8] };
    assert_eq!(pixels(&long), None);
    let flat = RgbaImage { width: 2, height: 0, bytes: vec![] };
    assert_eq!(pixels(&flat), None);
}

#[test]
fn neighbourhoods_stop_at_the_edges_and_go_row_by_row() {
    assert_eq!(neighbourhood(0, 3, 3, 1), vec![0, 1, 3, 4]);
    assert_eq!(neighbourhood(4, 3, 3, 1), vec![0, 1, 2, 3, 4, 5, 6, 7, 8]);
    assert_eq!(neighbourhood(5, 3, 3, 1), vec![1, 2, 4, 5, 7, 8]);
    assert_eq!(neighbourhood(2, 4, 1, 2), vec![0, 1, 2, 3]);
    assert_eq!(neighbourhood(3, 1, 6, 2), vec![1, 2, 3, 4, 5]);
    assert_eq!(neighbourhood(7, 3, 3, 0), vec![7]);
    assert_eq!(neighbourhood(3, 2, 2, usize::MAX), vec![0, 1, 2, 3]);
    // Places below the grid reach into it from there.
    assert_eq!(neighbourhood(10, 3, 3, 1), vec![6, 7, 8]);
    assert_eq!(neighbourhood(100, 3, 3, 1), vec![]);
}

#[test]
fn spans_grow_to_hold_what_they_take_in() {
    assert_eq!(include_span(None, 5), (5, 5));
    assert_eq!(include_span(Some((5, 7)), 3), (3, 7));
    assert_eq!(include_span(Some((5, 7)), 9), (5, 9));
    assert_eq!(include_span(Some((5, 7)), 6), (5, 7));
    assert!(span_covers(Some((5, 7)), 5));
    assert!(span_covers(Some((5, 7)), 7));
    assert!(!span_covers(Some((5, 7)), 4));
    assert!(!span_covers(Some((5, 7)), 8));
    assert!(!span_covers(None, 5));
}

#[test]
fn bounds_reach_from_the_first_span_to_the_last() {
    let rows = [None, Some((2, 3)), None, Some((1, 1)), None];
    let columns = [None, Some((3, 3)), Some((1, 1)), Some((1, 1))];
    let bounds = Bounds::of(&rows, &columns).unwrap();
    assert_eq!((bounds.min_x, bounds.min_y), (1, 1));
    assert_eq!((bounds.max_x, bounds.max_y), (3, 3));
    assert_eq!((bounds.width(), bounds.height()), (3, 3));
    assert!(Bounds::of(&[None, None], &columns).is_none());
    assert!(Bounds::of(&rows, &[None]).is_none());
}

#[test]
fn badges_are_small_dense_and_at_the_edge() {
    let artwork = Bounds { min_x: 0, min_y: 0, max_x: 99, max_y: 99 };
    let corner = Bounds { min_x: 90, min_y: 0, max_x: 99, max_y: 9 };
    assert!(plausible_badge(corner, artwork, 100, 1000, 100, 100));
    // The margin is a sixteenth of the longer side, rounded up: 7 cells.
    let inside = |first: usize, last: usize| Bounds {
        min_x: first,
        min_y: first,
        max_x: last,
        max_y: last,
    };
    assert!(plausible_badge(inside(7, 20), artwork, 100, 1000, 100, 100));
    assert!(!plausible_badge(inside(8, 20), artwork, 100, 1000, 100, 100));
    assert!(plausible_badge(inside(80, 92), artwork, 100, 1000, 100, 100));
    assert!(!plausible_badge(inside(80, 91), artwork, 100, 1000, 100, 100));
    // At most half of what is visible.
    assert!(plausible_badge(corner, artwork, 100, 200, 100, 100));
    assert!(!plausible_badge(corner, artwork, 100, 199, 100, 100));
    // At least 15 percent of the box.
    assert!(plausible_badge(corner, artwork, 15, 1000, 100, 100));
    assert!(!plausible_badge(corner, artwork, 14, 1000, 100, 100));
    // At most 40 percent of the grid.
    let wide = |rows: usize| Bounds { min_x: 0, min_y: 0, max_x: 99, max_y: rows - 1 };
    assert!(plausible_badge(wide(40), artwork, 2000, 9000, 100, 100));
    assert!(!plausible_badge(wide(41), artwork, 2000, 9000, 100, 100));
}

#[test]
fn boxes_beyond_the_grid_are_measured_alike() {
    let artwork = Bounds { min_x: 20, min_y: 20, max_x: 99, max_y: 99 };
    let square = |first: usize, side: usize| Bounds {
        min_x: first,
        min_y: first,
        max_x: first + side - 1,
        max_y: first + side - 1,
    };
    assert!(plausible_badge(square(200, 4), artwork, 16, 32, 10, 10));
    assert!(!plausible_badge(square(200, 4), artwork, 16, 31, 10, 10));
    assert!(plausible_badge(square(0, 6), artwork, 36, 72, 10, 10));
    assert!(!plausible_badge(square(0, 7), artwork, 49, 98, 10, 10));
    assert!(!plausible_badge(square(50, 4), artwork, 16, 32, 10, 10));
    assert!(!plausible_badge(square(0, 1), artwork, 1, 2, 0, 10));
}

#[test]
fn badges_hold_what_lies_between_their_marks() {
    let badge = Badge {
        rows: vec![None, Some((1, 3)), Some((2, 2)), None],
        columns: vec![None, Some((1, 1)), Some((1, 2)), Some((1, 1)), None, None],
    };
    assert!(badge.contains(1, 1));
    assert!(badge.contains(2, 1));
    assert!(badge.contains(2, 2));
    assert!(!badge.contains(1, 2));
    assert!(!badge.contains(0, 1));
    // The row alone rules out places beyond the columns.
    assert!(!badge.contains(9, 0));
    assert!(!badge.contains(usize::MAX, 1));
    assert!(badge.affects_analysis(0, 0));
    assert!(badge.affects_analysis(4, 2));
    assert!(!badge.affects_analysis(5, 1));
    assert!(badge.affects_analysis(2, 3));
    assert!(!badge.affects_analysis(0, 3));
    assert!(!badge.affects_analysis(usize::MAX, usize::MAX));
}

#[test]
fn badges_need_clear_space() {
    let icon = |clear: usize| -> Vec<[u8; 4]> {
        (0..100)
            .map(|index| match index {
                0 => [224, 30, 90, 255],
                _ if index >= 100 - clear => [0; 4],
                _ => grey(200),
            })
            .collect()
    };
    assert!(classify_badge(&icon(10), 10, 10).is_some());
    assert!(classify_badge(&icon(9), 10, 10).is_none());
    let badge = classify_badge(&icon(10), 10, 10).unwrap();
    assert_eq!(badge.rows[0], Some((0, 0)));
    assert_eq!(badge.columns[0], Some((0, 0)));
    assert!(badge.rows[1..].iter().all(Option::is_none));
    assert!(classify_badge(&[], 0, 0).is_none());
    assert!(classify_badge(&[[0; 4]; 4], 2, 2).is_none());
    assert!(classify_badge(&[grey(9), [0; 4], [0; 4], [0; 4]], 2, 2).is_none());
}

fn line(levels: &[u8]) -> Vec<Option<u8>> {
    levels.iter().map(|&level| if level == 1 { None } else { Some(level) }).collect()
}

fn is_complex(levels: &[u8], low: u8, high: u8, high_is_primary: bool) -> bool {
    complex_contours(levels.len(), 1, &line(levels), low, high, high_is_primary)
}

#[test]
fn three_changes_in_a_run_are_complex() {
    assert!(is_complex(&[100, 140, 100, 140], 100, 140, true));
    assert!(!is_complex(&[100, 140, 100], 100, 140, true));
    assert!(!is_complex(&[], 100, 140, true));
    assert!(!is_complex(&[1, 1, 1], 100, 140, true));
}

#[test]
fn a_border_in_the_secondary_ink_is_complex_where_the_inks_are_far_apart() {
    assert!(is_complex(&[100, 149, 100], 100, 149, true));
    assert!(!is_complex(&[100, 149, 100], 100, 149, false));
    assert!(is_complex(&[149, 100, 149], 100, 149, false));
    assert!(!is_complex(&[149, 100, 149], 100, 149, true));
    assert!(!is_complex(&[100, 148, 100], 100, 148, true));
}

#[test]
fn gaps_part_lines() {
    assert!(!is_complex(&[100, 140, 1, 100, 140], 100, 140, true));
    assert!(is_complex(&[100, 140, 100, 140, 1, 100], 100, 140, true));
    assert!(is_complex(&[100, 1, 100, 140, 100, 140], 100, 140, true));
}

#[test]
fn blended_levels_add_no_ink() {
    assert!(!is_complex(&[100, 120, 125, 140, 120, 100], 100, 140, true));
    assert!(is_complex(&[100, 120, 140, 120, 100, 120, 140], 100, 140, true));
}

#[test]
fn one_complex_line_in_five_is_allowed() {
    let grid = |plain: usize| {
        let mut levels = line(&[100, 140, 100, 140]);
        for _ in 0..plain {
            levels.extend(line(&[100, 100, 100, 100]));
        }
        complex_contours(4, plain + 1, &levels, 100, 140, true)
    };
    assert!(!grid(4));
    assert!(grid(3));
}

#[test]
fn contours_count_both_ways() {
    let across = line(&[100, 140, 100, 140, 100, 140, 100, 140]);
    assert!(complex_contours(4, 2, &across, 100, 140, true));
    let down = line(&[100, 100, 140, 140, 100, 100, 140, 140]);
    assert!(complex_contours(2, 4, &down, 100, 140, true));
}

#[test]
fn palettes_come_from_solid_areas() {
    let blank: Vec<Option<[u8; 4]>> = vec![None; 25];
    assert_eq!(antialiased_palette(5, 5, &blank), None);
    assert_eq!(antialiased_palette(0, 0, &[]), None);
    let plain = vec![Some(grey(90)); 25];
    assert_eq!(antialiased_palette(5, 5, &plain), Some(PaintDecision::Monotone));
    // Too small to have a solid area.
    let strip = vec![Some(grey(90)); 10];
    assert_eq!(antialiased_palette(5, 2, &strip), None);
    // Three columns of each tone, with a blend between them.
    let halves = |blend: &[u8]| {
        let mut row = vec![Some(grey(0)); 3];
        row.extend(blend.iter().map(|&value| Some(grey(value))));
        row.extend(vec![Some(grey(255)); 4]);
        let width = row.len();
        let samples: Vec<Option<[u8; 4]>> = row.iter().cycle().take(width * 4).copied().collect();
        antialiased_palette(width, 4, &samples)
    };
    let duotone = PaintDecision::Duotone { low: 0, high: 255, high_is_primary: true };
    assert_eq!(halves(&[128]), Some(duotone));
    assert_eq!(halves(&[100, 180]), Some(duotone));
    assert_eq!(halves(&[60, 100, 140, 180]), None);
}

#[test]
fn palettes_count_both_ways() {
    let rows = |tones: &[u8], height: usize| -> Vec<Option<[u8; 4]>> {
        let row = tones.iter().map(|&tone| if tone == 1 { None } else { Some(grey(tone)) });
        row.cycle().take(tones.len() * height).collect()
    };
    let columns = |tones: &[u8], width: usize| -> Vec<Option<[u8; 4]>> {
        let cell = |&tone: &u8| if tone == 1 { None } else { Some(grey(tone)) };
        tones.iter().flat_map(|tone| vec![cell(tone); width]).collect()
    };
    let both = |tones: &[u8], across: usize| {
        let palette = antialiased_palette(tones.len(), across, &rows(tones, across));
        assert_eq!(antialiased_palette(across, tones.len(), &columns(tones, across)), palette);
        palette
    };
    let duotone = PaintDecision::Duotone { low: 0, high: 255, high_is_primary: false };
    assert_eq!(both(&[0, 0, 0, 0, 128, 255, 255, 255], 4), Some(duotone));
    assert_eq!(both(&[1, 200, 200, 200, 140, 1], 5), Some(PaintDecision::Monotone));
    assert_eq!(both(&[0, 0, 0, 60, 100, 140, 180, 255, 255, 255], 4), None);
    assert_eq!(both(&[90, 90, 90, 90, 90], 2), None);
}

#[test]
fn soft_edges_of_one_tone_fade_into_gaps() {
    let disc = |edge: Option<[u8; 4]>| {
        let mut samples = vec![None; 49];
        for y in 1..6 {
            for x in 1..6 {
                let rim = x == 1 || y == 1 || x == 5 || y == 5;
                samples[y * 7 + x] = if rim { edge } else { Some(grey(200)) };
            }
        }
        antialiased_palette(7, 7, &samples)
    };
    assert_eq!(disc(Some([120, 120, 120, 60])), Some(PaintDecision::Monotone));
    let mut walled = vec![Some(grey(200)); 121];
    walled[60] = Some(grey(120));
    walled[61] = Some(grey(120));
    walled[59] = Some(grey(120));
    assert_eq!(antialiased_palette(11, 11, &walled), None);
}

#[test]
fn icons_are_judged_without_the_rim_of_a_badge() {
    let mut icon = vec![grey(200); 25];
    icon[0] = [224, 30, 90, 255];
    icon[1] = grey(0);
    let badge = Badge {
        rows: vec![Some((0, 0)), None, None, None, None],
        columns: vec![Some((0, 0)), None, None, None, None],
    };
    assert_eq!(classify(&icon, 5, 5, Some(&badge)), PaintDecision::Monotone);
    assert_eq!(classify(&icon, 5, 5, None), PaintDecision::Original("original-coloured"));
    icon[2] = grey(0);
    assert_ne!(classify(&icon, 5, 5, Some(&badge)), PaintDecision::Monotone);
}

#[test]
fn icons_without_visible_pixels_are_empty_with_any_badge() {
    let nothing = Badge { rows: vec![], columns: vec![] };
    let empty = PaintDecision::Original("original-empty");
    assert_eq!(classify(&[], 0, 0, Some(&nothing)), empty);
    assert_eq!(classify(&[], 0, 7, Some(&nothing)), empty);
    assert_eq!(classify(&[], 7, 0, None), empty);
    assert_eq!(classify(&[[9, 9, 9, 15]; 6], 3, 2, Some(&nothing)), empty);
}

#[test]
fn labels_name_decisions() {
    assert_eq!(PaintDecision::Original("original-empty").label(), "original-empty");
    assert_eq!(PaintDecision::Symbolic.label(), "symbolic-explicit");
    assert_eq!(PaintDecision::Monotone.label(), "monotone");
    let duotone = PaintDecision::Duotone { low: 1, high: 99, high_is_primary: false };
    assert_eq!(duotone.label(), "duotone");
}

//! Decisions on whole icons, and what painting makes of them.

use icon_paint::badge::classify_badge;
use icon_paint::decision::PaintDecision;
use icon_paint::paint::recolour;
use icon_paint::raster;
use icon_paint::raster::RgbaImage;
use icon_paint::theme::ThemeContext;

fn test_theme(background: [u8; 3]) -> ThemeContext {
    let bright = background.iter().map(|&channel| u32::from(channel)).sum::<u32>() > 384;
    ThemeContext {
        colour_icons: true,
        ink: if bright { [36, 38, 41] } else { [240, 242, 245] },
        background,
    }
}

fn light_panel() -> ThemeContext {
    test_theme([235, 236, 238])
}

fn dark_panel() -> ThemeContext {
    test_theme([24, 26, 30])
}

fn original_icons() -> ThemeContext {
    ThemeContext { colour_icons: false, ..light_panel() }
}

fn pixmap(size: u32, pixel: impl Fn(u32, u32) -> [u8; 4]) -> RgbaImage {
    let mut bytes = Vec::new();
    for y in 0..size {
        for x in 0..size {
            bytes.extend_from_slice(&pixel(x, y));
        }
    }
    RgbaImage { width: size, height: size, bytes }
}

fn alphas(image: &RgbaImage) -> Vec<u8> {
    image.bytes.chunks_exact(4).map(|pixel| pixel[3]).collect()
}

fn decision(image: &RgbaImage) -> PaintDecision {
    recolour(&mut image.clone(), &light_panel(), false)
}

#[test]
fn a_simple_internal_detail_is_not_a_border_and_repeated_details_remain_complex() {
    let image = pixmap(24, |x, y| {
        if (9..15).contains(&x) && (6..18).contains(&y) {
            [0, 0, 0, 255]
        } else if (3..21).contains(&x) && (3..21).contains(&y) {
            [255; 4]
        } else {
            [0; 4]
        }
    });
    assert!(matches!(decision(&image), PaintDecision::Duotone { .. }));
    let striped = pixmap(24, |x, y| {
        if (3..21).contains(&x) && (3..21).contains(&y) {
            if (6..8).contains(&x) || (11..13).contains(&x) || (16..18).contains(&x) {
                [0, 0, 0, 255]
            } else {
                [255; 4]
            }
        } else {
            [0; 4]
        }
    });
    unchanged(&striped, "original-complex-contours");
}

#[test]
fn transparent_padding_does_not_dilute_the_contour_guard() {
    let original = pixmap(24, |x, y| {
        if (3..21).contains(&x) && (3..21).contains(&y) {
            if (6..8).contains(&x) || (11..13).contains(&x) || (16..18).contains(&x) {
                [0, 0, 0, 255]
            } else {
                [255; 4]
            }
        } else {
            [0; 4]
        }
    });
    let mut padded = pixmap(48, |_, _| [0; 4]);
    for y in 0..original.height {
        for x in 0..original.width {
            let source = usize::try_from((y * original.width + x) * 4).unwrap();
            let target = usize::try_from(((y + 12) * padded.width + x + 12) * 4).unwrap();
            padded.bytes[target..target + 4].copy_from_slice(&original.bytes[source..source + 4]);
        }
    }
    assert_eq!(decision(&padded), decision(&original));
}

fn unchanged(image: &RgbaImage, reason: &'static str) {
    for theme in [light_panel(), dark_panel(), test_theme([70, 110, 180])] {
        let mut result = image.clone();
        assert_eq!(recolour(&mut result, &theme, false), PaintDecision::Original(reason));
        assert_eq!(result, *image);
    }
}

fn outlined(fill: u8, border: u8, border_alpha: u8) -> RgbaImage {
    pixmap(16, |x, y| {
        if (3..13).contains(&x) && (3..13).contains(&y) {
            [fill, fill, fill, 255]
        } else if (2..14).contains(&x) && (2..14).contains(&y) {
            [border, border, border, border_alpha]
        } else {
            [0; 4]
        }
    })
}

#[test]
fn neutral_monotones_use_exact_theme_ink_and_keep_alpha() {
    for grey in [0, 112, 255] {
        let image = pixmap(10, |x, y| {
            [
                grey,
                grey,
                grey,
                if y == 0 {
                    0
                } else if x == 0 {
                    16
                } else {
                    180
                },
            ]
        });
        for theme in [light_panel(), dark_panel(), test_theme([70, 110, 180])] {
            let mut result = image.clone();
            assert_eq!(recolour(&mut result, &theme, false), PaintDecision::Monotone);
            assert_eq!(alphas(&result), alphas(&image));
            for pixel in result.bytes.chunks_exact(4).filter(|p| p[3] > 0) {
                assert_eq!(&pixel[..3], &theme.ink);
            }
            assert_eq!(&result.bytes[..40], &image.bytes[..40]);
        }
    }
}

#[test]
fn coloured_bases_remain_original_with_one_or_many_colours() {
    for image in [
        pixmap(16, |_, _| [0, 100, 220, 255]),
        pixmap(16, |x, _| if x < 8 { [220, 20, 20, 255] } else { [20, 20, 220, 255] }),
    ] {
        unchanged(&image, "original-coloured");
    }
}

#[test]
fn neutral_and_monotone_thresholds_are_inclusive() {
    assert_eq!(decision(&pixmap(4, |_, _| [100, 116, 100, 255])), PaintDecision::Monotone);
    unchanged(&pixmap(4, |_, _| [100, 117, 100, 255]), "original-coloured");
    assert_eq!(
        decision(&pixmap(4, |x, _| if x < 2 {
            [100, 100, 100, 255]
        } else {
            [124, 124, 124, 255]
        })),
        PaintDecision::Monotone
    );
    assert!(matches!(
        decision(&pixmap(4, |x, _| if x < 2 {
            [100, 100, 100, 255]
        } else {
            [125, 125, 125, 255]
        })),
        PaintDecision::Duotone { .. }
    ));
}

#[test]
fn simple_duotones_keep_two_fixed_theme_colours_on_both_panels() {
    let image = pixmap(10, |x, _| if x < 5 { [40, 40, 40, 255] } else { [220, 220, 220, 255] });
    for theme in [light_panel(), dark_panel()] {
        let mut result = image.clone();
        assert_eq!(
            recolour(&mut result, &theme, false),
            PaintDecision::Duotone { low: 40, high: 220, high_is_primary: true }
        );
        let pixels: Vec<&[u8]> = result.bytes.chunks_exact(4).collect();
        let secondary: [u8; 3] = std::array::from_fn(|c| {
            u8::try_from(
                (u16::from(theme.ink[c]) * 7 + u16::from(theme.background[c]) * 3 + 5) / 10,
            )
            .unwrap()
        });
        assert_eq!(&pixels[0][..3], &secondary);
        assert_eq!(&pixels[9][..3], &theme.ink);
        assert_ne!(secondary, theme.ink);
        assert_eq!(alphas(&image), alphas(&result));
    }
}

#[test]
fn dominant_tone_is_weighted_by_alpha_not_pixel_count() {
    let translucent =
        pixmap(10, |x, _| if x < 7 { [40, 40, 40, 16] } else { [220, 220, 220, 255] });
    let opaque = pixmap(10, |x, _| if x < 7 { [40, 40, 40, 255] } else { [220, 220, 220, 255] });
    assert!(matches!(
        decision(&translucent),
        PaintDecision::Duotone { high_is_primary: true, .. }
    ));
    assert!(matches!(decision(&opaque), PaintDecision::Duotone { high_is_primary: false, .. }));
}

#[test]
fn gradients_and_three_significant_tones_stay_original() {
    unchanged(
        &pixmap(32, |x, _| {
            let value = u8::try_from(x * 8).unwrap();
            [value, value, value, 255]
        }),
        "original-multiple-tones",
    );
    unchanged(
        &pixmap(12, |x, _| {
            let value = match x {
                0..4 => 0,
                4..8 => 128,
                _ => 255,
            };
            [value, value, value, 255]
        }),
        "original-multiple-tones",
    );
}

#[test]
fn strong_opaque_and_translucent_outlines_stay_original() {
    for alpha in [16, 128, 255] {
        unchanged(&outlined(255, 0, alpha), "original-complex-contours");
    }
}

#[test]
fn subtle_borders_are_allowed_but_repeated_contours_are_not() {
    assert!(matches!(decision(&outlined(100, 148, 255)), PaintDecision::Duotone { .. }));
    unchanged(&outlined(100, 149, 255), "original-complex-contours");
    unchanged(
        &pixmap(16, |x, _| {
            let value = if x % 4 < 2 { 100 } else { 140 };
            [value, value, value, 255]
        }),
        "original-complex-contours",
    );
}

#[test]
fn vertical_contours_are_checked_too() {
    unchanged(
        &pixmap(16, |_, y| {
            let value = if y % 4 < 2 { 100 } else { 140 };
            [value, value, value, 255]
        }),
        "original-complex-contours",
    );
}

#[test]
fn transparent_cutouts_break_runs_and_do_not_count_as_contours() {
    let image = pixmap(15, |x, _| {
        if x == 4 || x == 9 {
            [0; 4]
        } else if !(4..=9).contains(&x) {
            [40, 40, 40, 255]
        } else {
            [220, 220, 220, 255]
        }
    });
    assert!(matches!(decision(&image), PaintDecision::Duotone { .. }));
    assert_eq!(decision(&outlined(0, 0, 255)), PaintDecision::Monotone);
}

#[test]
fn antialiasing_does_not_add_transitions_and_is_interpolated() {
    let image = pixmap(100, |x, _| match x {
        0..49 => [0, 0, 0, 255],
        49..51 => [128, 128, 128, 255],
        _ => [255; 4],
    });
    let mut painted = image.clone();
    assert!(matches!(
        recolour(&mut painted, &light_panel(), false),
        PaintDecision::Duotone { .. }
    ));
    let pixels: Vec<&[u8]> = painted.bytes.chunks_exact(4).collect();
    for ((middle, primary), secondary) in
        pixels[49][..3].iter().zip(&pixels[99][..3]).zip(&pixels[0][..3])
    {
        assert!(middle > primary);
        assert!(middle < secondary);
    }
    let thin_transition = pixmap(100, |x, _| match x {
        0..49 => [0, 0, 0, 255],
        49..52 => [128, 128, 128, 255],
        _ => [255; 4],
    });
    assert!(matches!(decision(&thin_transition), PaintDecision::Duotone { .. }));
    let too_many = pixmap(100, |x, _| match x {
        0..49 => [0, 0, 0, 255],
        49..57 => [128, 128, 128, 255],
        _ => [255; 4],
    });
    unchanged(&too_many, "original-multiple-tones");
}

fn badged(padding: u32) -> RgbaImage {
    pixmap(16 + padding * 2, |x, y| {
        let Some(x) = x.checked_sub(padding) else {
            return [0; 4];
        };
        let Some(y) = y.checked_sub(padding) else {
            return [0; 4];
        };
        match (x, y) {
            (12, 3) => [255; 4],
            (10..15, 1..6) => [224, 30, 90, 255],
            (2..14, 2..14) => [200, 200, 200, 255],
            _ => [0; 4],
        }
    })
}

#[test]
fn badges_keep_their_rgba_and_neutral_details_without_disqualifying_the_base() {
    for padding in [0, 8] {
        let image = badged(padding);
        for theme in [light_panel(), dark_panel()] {
            let (width, height, pixels) = raster::pixels(&image).unwrap();
            let badge = classify_badge(&pixels, width, height).unwrap();
            let mut painted = image.clone();
            assert_eq!(recolour(&mut painted, &theme, false), PaintDecision::Monotone);
            for (index, pixel) in painted.bytes.chunks_exact(4).enumerate() {
                if badge.contains(index % width, index / width) || pixel[3] == 0 {
                    assert_eq!(*pixel, pixels[index]);
                } else {
                    assert_eq!(&pixel[..3], &theme.ink);
                }
            }
            assert_eq!(alphas(&painted), alphas(&image));
        }
    }
}

#[test]
fn badge_analysis_margin_excludes_neutral_outline_without_painting_it_as_badge() {
    let mut image = badged(0);
    image.bytes[3 * 16 * 4 + 9 * 4..3 * 16 * 4 + 9 * 4 + 4].copy_from_slice(&[0, 0, 0, 255]);
    assert_eq!(decision(&image), PaintDecision::Monotone);
}

#[test]
fn an_uncertain_coloured_region_preserves_the_whole_image() {
    let image = pixmap(16, |x, y| match (x, y) {
        (6..10, 6..10) => [200, 0, 0, 255],
        (2..14, 2..14) => [200, 200, 200, 255],
        _ => [0; 4],
    });
    unchanged(&image, "original-coloured");
}

#[test]
fn explicit_symbolics_override_the_toggle_and_colour_gate_but_keep_badges() {
    let mut coloured = pixmap(16, |_, _| [20, 100, 200, 255]);
    assert_eq!(recolour(&mut coloured, &original_icons(), true), PaintDecision::Symbolic);
    assert_eq!(&coloured.bytes[..3], &original_icons().ink);
    let image = badged(0);
    let mut painted = image.clone();
    assert_eq!(recolour(&mut painted, &original_icons(), true), PaintDecision::Symbolic);
    assert_eq!(
        &painted.bytes[(3 * 16 + 11) * 4..(3 * 16 + 11) * 4 + 4],
        &[224, 30, 90, 255]
    );
    assert_eq!(alphas(&painted), alphas(&image));
}

#[test]
fn disabled_empty_and_invalid_inputs_are_unchanged() {
    let mut neutral = pixmap(16, |_, _| [200; 4]);
    let original = neutral.clone();
    assert_eq!(
        recolour(&mut neutral, &original_icons(), false),
        PaintDecision::Original("original-disabled")
    );
    assert_eq!(neutral, original);
    unchanged(&pixmap(4, |_, _| [255, 0, 0, 15]), "original-empty");
    unchanged(&RgbaImage { width: 0, height: 0, bytes: vec![] }, "original-invalid");
    unchanged(&RgbaImage { width: 1, height: 1, bytes: vec![0; 3] }, "original-invalid");
    unchanged(
        &RgbaImage { width: u32::MAX, height: u32::MAX, bytes: vec![] },
        "original-invalid",
    );
}

#[test]
fn classification_happens_before_resizing_can_hide_thin_contours() {
    let image = pixmap(100, |x, y| {
        if (2..98).contains(&x) && (2..98).contains(&y) {
            [255; 4]
        } else if (1..99).contains(&x) && (1..99).contains(&y) {
            [0, 0, 0, 128]
        } else {
            [0; 4]
        }
    });
    unchanged(&image, "original-complex-contours");
}

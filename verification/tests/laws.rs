//! What holds of every icon, on icons of each kind.

use icon_paint::badge::classify_badge;
use icon_paint::decision::PaintDecision;
use icon_paint::paint::recolour;
use icon_paint::raster::{pixels, RgbaImage};
use icon_paint::theme::ThemeContext;

const GREY_INK: ThemeContext =
    ThemeContext { colour_icons: true, ink: [36, 38, 41], background: [235, 236, 238] };
const BLUE_INK: ThemeContext =
    ThemeContext { colour_icons: true, ink: [20, 60, 200], background: [240, 240, 240] };
const NO_INK: ThemeContext =
    ThemeContext { colour_icons: false, ink: [36, 38, 41], background: [235, 236, 238] };

fn icon(width: u32, height: u32, pixel: impl Fn(u32, u32) -> [u8; 4]) -> RgbaImage {
    let mut bytes = Vec::new();
    for y in 0..height {
        for x in 0..width {
            bytes.extend_from_slice(&pixel(x, y));
        }
    }
    RgbaImage { width, height, bytes }
}

fn padded(image: &RgbaImage, left: u32, top: u32, width: u32, height: u32) -> RgbaImage {
    icon(width, height, |x, y| {
        let inside =
            (left..left + image.width).contains(&x) && (top..top + image.height).contains(&y);
        if inside {
            let start = (((y - top) * image.width + x - left) * 4) as usize;
            [
                image.bytes[start],
                image.bytes[start + 1],
                image.bytes[start + 2],
                image.bytes[start + 3],
            ]
        } else {
            [250, 3, 99, 15]
        }
    })
}

fn turned(image: &RgbaImage) -> RgbaImage {
    icon(image.height, image.width, |x, y| {
        let start = ((x * image.width + y) * 4) as usize;
        [
            image.bytes[start],
            image.bytes[start + 1],
            image.bytes[start + 2],
            image.bytes[start + 3],
        ]
    })
}

fn decision(image: &RgbaImage) -> PaintDecision {
    recolour(&mut image.clone(), &GREY_INK, false)
}

fn monotone() -> RgbaImage {
    icon(9, 7, |x, y| if x == y { [0; 4] } else { [120, 122, 124, 30 * (x as u8)] })
}

fn duotone() -> RgbaImage {
    icon(10, 6, |x, _| match x {
        0..=4 => [0, 0, 0, 255],
        _ => [255; 4],
    })
}

fn badged() -> RgbaImage {
    icon(16, 16, |x, y| match (x, y) {
        (10..=14, 1..=5) => [224, 30, 90, 255],
        (2..=13, 2..=13) => [200, 200, 200, 255],
        _ => [7, 8, 9, 0],
    })
}

fn striped() -> RgbaImage {
    icon(16, 5, |x, _| if x % 4 < 2 { [100, 100, 100, 255] } else { [140, 140, 140, 255] })
}

fn three_tones() -> RgbaImage {
    icon(12, 12, |x, _| match x {
        0..=3 => [0, 0, 0, 255],
        4..=7 => [128, 128, 128, 255],
        _ => [255; 4],
    })
}

fn coloured() -> RgbaImage {
    icon(4, 4, |_, _| [0, 100, 220, 255])
}

#[test]
fn alpha_is_kept_and_unseen_pixels_stay() {
    for image in [monotone(), duotone(), badged(), coloured()] {
        for theme in [GREY_INK, BLUE_INK, NO_INK] {
            for explicit in [false, true] {
                let mut painted = image.clone();
                recolour(&mut painted, &theme, explicit);
                assert_eq!((painted.width, painted.height), (image.width, image.height));
                assert_eq!(painted.bytes.len(), image.bytes.len());
                for (after, before) in painted.bytes.chunks(4).zip(image.bytes.chunks(4)) {
                    assert_eq!(after[3], before[3]);
                    if before[3] == 0 {
                        assert_eq!(after, before);
                    }
                }
            }
        }
    }
}

#[test]
fn one_tone_takes_the_ink_even_where_it_is_faint() {
    let mut image = monotone();
    image.bytes[4..8].copy_from_slice(&[200, 0, 0, 1]);
    assert_eq!(recolour(&mut image, &GREY_INK, false), PaintDecision::Monotone);
    assert_eq!(&image.bytes[4..8], &[36, 38, 41, 1]);
    assert_eq!(&image.bytes[..4], &[0, 0, 0, 0]);
}

#[test]
fn two_tones_take_two_colours_and_blends_between() {
    let mut image = icon(100, 1, |x, _| match x {
        0..=48 => [0, 0, 0, 255],
        49 => [128, 128, 128, 255],
        50 => [5, 5, 5, 255],
        _ => [255; 4],
    });
    assert_eq!(
        recolour(&mut image, &GREY_INK, false),
        PaintDecision::Duotone { low: 0, high: 255, high_is_primary: false }
    );
    assert_eq!(&image.bytes[..3], &[36, 38, 41]);
    assert_eq!(&image.bytes[99 * 4..99 * 4 + 3], &[96, 97, 100]);
    assert_eq!(&image.bytes[49 * 4..49 * 4 + 3], &[66, 68, 71]);
    assert_eq!(&image.bytes[50 * 4..50 * 4 + 3], &[37, 39, 42]);
}

#[test]
fn symbolic_icons_are_painted_whatever_the_toggle_says() {
    for image in [monotone(), duotone(), badged(), striped(), coloured()] {
        for theme in [GREY_INK, NO_INK] {
            assert_eq!(recolour(&mut image.clone(), &theme, true), PaintDecision::Symbolic);
        }
        let mut kept = image.clone();
        assert_eq!(
            recolour(&mut kept, &NO_INK, false),
            PaintDecision::Original("original-disabled")
        );
        assert_eq!(kept, image);
    }
    let mut broken = RgbaImage { width: 2, height: 2, bytes: vec![9; 15] };
    assert_eq!(
        recolour(&mut broken, &GREY_INK, true),
        PaintDecision::Original("original-invalid")
    );
    assert_eq!(broken.bytes, vec![9; 15]);
}

#[test]
fn decisions_do_not_depend_on_the_colours_of_the_theme() {
    for image in [monotone(), duotone(), badged(), striped(), three_tones(), coloured()] {
        assert_eq!(
            recolour(&mut image.clone(), &GREY_INK, false),
            recolour(&mut image.clone(), &BLUE_INK, false)
        );
    }
}

#[test]
fn each_reason_has_its_icon() {
    let reasons = [
        (striped(), "original-complex-contours"),
        (three_tones(), "original-multiple-tones"),
        (coloured(), "original-coloured"),
        (icon(3, 3, |_, _| [9, 9, 9, 15]), "original-empty"),
        (RgbaImage { width: 0, height: 3, bytes: vec![] }, "original-invalid"),
    ];
    for (image, reason) in reasons {
        let mut kept = image.clone();
        assert_eq!(recolour(&mut kept, &GREY_INK, false), PaintDecision::Original(reason));
        assert_eq!(kept, image);
        assert_eq!(decision(&image).label(), reason);
    }
}

#[test]
fn colour_is_kept_unless_it_is_a_badge() {
    assert_eq!(decision(&badged()), PaintDecision::Monotone);
    let (width, height, grid) = pixels(&badged()).unwrap();
    let badge = classify_badge(&grid, width, height).unwrap();
    for (index, pixel) in grid.iter().enumerate() {
        if pixel[3] >= 16 && pixel[0] != pixel[1] {
            assert!(badge.contains(index % width, index / width));
        }
    }
}

#[test]
fn grey_icons_of_one_tone_may_vary_a_little() {
    let image = |spread: u8| {
        icon(5, 5, move |x, _| if x == 2 { [80, 80, 80, 16] } else { [80 + spread; 4] })
    };
    assert_eq!(decision(&image(24)), PaintDecision::Monotone);
    assert_ne!(decision(&image(25)), PaintDecision::Monotone);
}

#[test]
fn only_a_badge_and_its_rim_may_be_visible_on_an_empty_icon() {
    let image = icon(40, 40, |x, y| match (x, y) {
        (0..=3, 0..=3) => [224, 30, 90, 255],
        (0..=3, 4) | (4, 0..=4) => [10, 10, 10, 255],
        _ => [0; 4],
    });
    // More than half of what is visible is coloured, so it is no badge.
    assert_eq!(decision(&image), PaintDecision::Original("original-coloured"));
    let crossed = icon(40, 40, |x, y| match (x, y) {
        (2, 1..=3) | (1, 2) | (3, 2) => [224, 30, 90, 255],
        (1..=3, 1..=3) | (2, 0) | (2, 4) => [10, 10, 10, 255],
        _ => [0; 4],
    });
    assert_eq!(decision(&crossed), PaintDecision::Original("original-empty"));
    let mut beyond = crossed.clone();
    beyond.bytes[(6 * 40 + 6) * 4..(6 * 40 + 6) * 4 + 4].copy_from_slice(&[10, 10, 10, 255]);
    assert_eq!(decision(&beyond), PaintDecision::Monotone);
}

#[test]
fn a_second_coat_of_grey_changes_nothing() {
    for image in [monotone(), badged()] {
        let mut once = image.clone();
        assert_eq!(recolour(&mut once, &GREY_INK, false), PaintDecision::Monotone);
        let mut twice = once.clone();
        assert_eq!(recolour(&mut twice, &GREY_INK, false), PaintDecision::Monotone);
        assert_eq!(twice, once);
    }
    for image in [monotone(), duotone(), badged(), coloured()] {
        let mut once = image.clone();
        recolour(&mut once, &GREY_INK, true);
        let mut twice = once.clone();
        recolour(&mut twice, &GREY_INK, true);
        assert_eq!(twice, once);
    }
    for image in [monotone(), duotone(), coloured()] {
        let mut once = image.clone();
        recolour(&mut once, &BLUE_INK, true);
        let mut twice = once.clone();
        recolour(&mut twice, &BLUE_INK, true);
        assert_eq!(twice, once);
    }
}

#[test]
fn a_coloured_ink_hides_a_badge_from_a_second_coat() {
    let mut once = badged();
    recolour(&mut once, &BLUE_INK, true);
    assert_eq!(&once.bytes[(3 * 16 + 12) * 4..(3 * 16 + 12) * 4 + 4], &[224, 30, 90, 255]);
    let mut twice = once.clone();
    recolour(&mut twice, &BLUE_INK, true);
    assert_eq!(&twice.bytes[(3 * 16 + 12) * 4..(3 * 16 + 12) * 4 + 4], &[20, 60, 200, 255]);
}

#[test]
fn padding_keeps_decisions_and_painting() {
    for image in [monotone(), duotone(), badged(), striped(), three_tones(), coloured()] {
        for (left, top) in [(0, 0), (1, 0), (0, 3), (5, 2)] {
            let wider = padded(&image, left, top, image.width + 6, image.height + 5);
            assert_eq!(decision(&wider), decision(&image));
            let mut painted = image.clone();
            recolour(&mut painted, &GREY_INK, false);
            let mut painted_wider = wider.clone();
            recolour(&mut painted_wider, &GREY_INK, false);
            let row = image.width as usize * 4;
            for y in 0..image.height {
                let inner = y as usize * row;
                let outer = ((y + top) * wider.width + left) as usize * 4;
                assert_eq!(
                    painted_wider.bytes[outer..outer + row],
                    painted.bytes[inner..inner + row]
                );
            }
        }
    }
}

#[test]
fn padding_may_let_a_coloured_corner_pass_for_a_badge() {
    let image = icon(16, 16, |x, y| {
        if x < 4 && y < 4 { [224, 30, 90, 255] } else { [200, 200, 200, 255] }
    });
    assert_eq!(decision(&image), PaintDecision::Original("original-coloured"));
    assert_eq!(decision(&padded(&image, 4, 4, 24, 24)), PaintDecision::Monotone);
}

#[test]
fn rows_and_columns_count_alike() {
    let antialiased = icon(24, 4, |x, _| match x {
        0..=10 => [0, 0, 0, 255],
        11 => [90, 90, 90, 255],
        12 => [180, 180, 180, 255],
        _ => [255; 4],
    });
    let two_tones = PaintDecision::Duotone { low: 0, high: 255, high_is_primary: true };
    assert_eq!(decision(&antialiased), two_tones);
    let lopsided = icon(20, 12, |x, y| match (x, y) {
        (13..=16, 1..=3) => [224, 30, 90, 255],
        (2..=15, 2..=9) => [200, 200, 200, 255],
        _ => [0; 4],
    });
    assert_eq!(decision(&lopsided), PaintDecision::Monotone);
    for image in [
        monotone(),
        duotone(),
        antialiased,
        badged(),
        lopsided,
        striped(),
        three_tones(),
        coloured(),
    ] {
        assert_eq!(turned(&turned(&image)), image);
        assert_eq!(decision(&turned(&image)), decision(&image));
        for explicit in [false, true] {
            let mut painted = image.clone();
            recolour(&mut painted, &GREY_INK, explicit);
            let mut painted_turned = turned(&image);
            recolour(&mut painted_turned, &GREY_INK, explicit);
            assert_eq!(painted_turned, turned(&painted));
        }
    }
}

use lsystem_plant::raster::Canvas;
use lsystem_plant::raster::draw_line;

const WHITE: u32 = 0xFFFFFFFF;
const BLACK: u32 = 0xFF000000;

#[test]
fn horizontal_line_marks_exactly_its_pixels() {
    let mut c = Canvas::new(8, 8, WHITE);
    draw_line(&mut c, 0, 0, 5, 0, BLACK);
    for y in 0..8usize {
        for x in 0..8usize {
            let expected = if y == 0 && x <= 5 { BLACK } else { WHITE };
            assert_eq!(c.get(x, y), expected, "pixel ({}, {})", x, y);
        }
    }
}

#[test]
fn vertical_line() {
    let mut c = Canvas::new(4, 6, WHITE);
    draw_line(&mut c, 2, 1, 2, 4, BLACK);
    for y in 0..6usize {
        for x in 0..4usize {
            let expected = if x == 2 && (1..=4).contains(&y) { BLACK } else { WHITE };
            assert_eq!(c.get(x, y), expected, "pixel ({}, {})", x, y);
        }
    }
}

#[test]
fn diagonal_line() {
    let mut c = Canvas::new(5, 5, WHITE);
    draw_line(&mut c, 0, 0, 3, 3, BLACK);
    for y in 0..5usize {
        for x in 0..5usize {
            let expected = if x == y && x <= 3 { BLACK } else { WHITE };
            assert_eq!(c.get(x, y), expected, "pixel ({}, {})", x, y);
        }
    }
}

#[test]
fn line_drawn_right_to_left() {
    let mut c = Canvas::new(8, 8, WHITE);
    draw_line(&mut c, 5, 2, 1, 2, BLACK);
    for x in 0..8usize {
        let expected = if (1..=5).contains(&x) { BLACK } else { WHITE };
        assert_eq!(c.get(x, 2), expected);
    }
}

#[test]
fn out_of_bounds_pixels_are_skipped() {
    let mut c = Canvas::new(3, 3, WHITE);
    draw_line(&mut c, -2, 1, 4, 1, BLACK);
    for x in 0..3usize {
        assert_eq!(c.get(x, 1), BLACK);
    }
    for x in 0..3usize {
        assert_eq!(c.get(x, 0), WHITE);
        assert_eq!(c.get(x, 2), WHITE);
    }
}

#[test]
fn steep_line_is_connected_and_reaches_both_endpoints() {
    let mut c = Canvas::new(8, 8, WHITE);
    draw_line(&mut c, 0, 0, 2, 5, BLACK);
    assert_eq!(c.get(0, 0), BLACK);
    assert_eq!(c.get(2, 5), BLACK);
    // every row between the endpoints holds a pixel, and the pixels of
    // neighboring rows touch (no gaps)
    let mut prev_xs: Vec<usize> = Vec::new();
    for y in 0..=5usize {
        let xs: Vec<usize> = (0..8usize).filter(|&x| c.get(x, y) == BLACK).collect();
        assert!(!xs.is_empty(), "row {} empty", y);
        if !prev_xs.is_empty() {
            let touches = xs.iter().any(|&x| {
                prev_xs.iter().any(|&px| (x as i64 - px as i64).abs() <= 1)
            });
            assert!(touches, "gap above row {}", y);
        }
        prev_xs = xs;
    }
}

#[test]
fn single_point_line() {
    let mut c = Canvas::new(3, 3, WHITE);
    draw_line(&mut c, 1, 1, 1, 1, BLACK);
    for y in 0..3usize {
        for x in 0..3usize {
            let expected = if x == 1 && y == 1 { BLACK } else { WHITE };
            assert_eq!(c.get(x, y), expected);
        }
    }
}

#[test]
fn clear_resets_every_pixel() {
    let mut c = Canvas::new(4, 4, WHITE);
    draw_line(&mut c, 0, 0, 3, 3, BLACK);
    c.clear(WHITE);
    for y in 0..4usize {
        for x in 0..4usize {
            assert_eq!(c.get(x, y), WHITE);
        }
    }
}

#[test]
fn canvas_dimensions() {
    let c = Canvas::new(7, 3, WHITE);
    assert_eq!(c.width(), 7);
    assert_eq!(c.height(), 3);
    assert_eq!(c.pixels().len(), 21);
}

use polygon_editor::drawer::Drawer;

/// The line as the classic error-term iteration draws it.
fn stepwise(x1: i32, y1: i32, x2: i32, y2: i32) -> Vec<(i32, i32)> {
    let dx = x2 - x1;
    let dy = y2 - y1;
    let abs_dx = dx.abs();
    let abs_dy = dy.abs();
    let mut x = x1;
    let mut y = y1;
    let mut pixels = vec![(x, y)];
    if abs_dx > abs_dy {
        let mut d = 2 * abs_dy - abs_dx;
        for _ in 0..abs_dx {
            x = if dx < 0 { x - 1 } else { x + 1 };
            if d < 0 {
                d += 2 * abs_dy
            } else {
                y = if dy < 0 { y - 1 } else { y + 1 };
                d += 2 * abs_dy - 2 * abs_dx;
            }
            pixels.push((x, y));
        }
    } else {
        let mut d = 2 * abs_dx - abs_dy;
        for _ in 0..abs_dy {
            y = if dy < 0 { y - 1 } else { y + 1 };
            if d < 0 {
                d += 2 * abs_dx
            } else {
                x = if dx < 0 { x - 1 } else { x + 1 };
                d += 2 * abs_dx - 2 * abs_dy;
            }
            pixels.push((x, y));
        }
    }
    pixels
}

#[test]
fn a_flat_line_pixel_by_pixel() {
    assert_eq!(
        Drawer::line_pixels(0, 0, 5, 2),
        vec![(0, 0), (1, 0), (2, 1), (3, 1), (4, 2), (5, 2)]
    );
}

#[test]
fn a_steep_line_towards_the_origin() {
    assert_eq!(
        Drawer::line_pixels(3, 7, 1, 2),
        vec![(3, 7), (3, 6), (2, 5), (2, 4), (1, 3), (1, 2)]
    );
}

#[test]
fn a_single_pixel() {
    assert_eq!(Drawer::line_pixels(4, -2, 4, -2), vec![(4, -2)]);
    assert_eq!(Drawer::dashed_line_pixels(4, -2, 4, -2), vec![(4, -2)]);
}

#[test]
fn a_diagonal_and_the_axes() {
    assert_eq!(Drawer::line_pixels(0, 0, 3, 3), vec![(0, 0), (1, 1), (2, 2), (3, 3)]);
    assert_eq!(Drawer::line_pixels(2, 0, -1, 0), vec![(2, 0), (1, 0), (0, 0), (-1, 0)]);
    assert_eq!(Drawer::line_pixels(0, 1, 0, -1), vec![(0, 1), (0, 0), (0, -1)]);
}

#[test]
fn lines_agree_with_the_stepwise_iteration() {
    let ends = [-17, -8, -3, -1, 0, 1, 2, 5, 9, 23];
    for &x1 in &ends {
        for &y1 in &ends {
            for &x2 in &ends {
                for &y2 in &ends {
                    let pixels = Drawer::line_pixels(x1, y1, x2, y2);
                    assert_eq!(pixels, stepwise(x1, y1, x2, y2));
                    assert_eq!(pixels[0], (x1, y1));
                    assert_eq!(pixels[pixels.len() - 1], (x2, y2));
                }
            }
        }
    }
}

#[test]
fn lines_between_the_farthest_pixels_do_not_overflow() {
    let pixels = Drawer::line_pixels(i32::MAX - 2, i32::MIN, i32::MAX, i32::MIN + 3);
    assert_eq!(
        pixels,
        vec![
            (i32::MAX - 2, i32::MIN),
            (i32::MAX - 1, i32::MIN + 1),
            (i32::MAX - 1, i32::MIN + 2),
            (i32::MAX, i32::MIN + 3)
        ]
    );
}

#[test]
fn a_dashed_line_paints_four_pixels_of_eight() {
    let dashes = Drawer::dashed_line_pixels(0, 0, 20, 0);
    let expected: Vec<(i32, i32)> =
        [0, 1, 2, 3, 4, 9, 10, 11, 12, 17, 18, 19, 20].iter().map(|&x| (x, 0)).collect();
    assert_eq!(dashes, expected);
}

#[test]
fn a_dashed_line_is_part_of_the_solid_line() {
    let solid = Drawer::line_pixels(-4, 3, 15, -9);
    let dashes = Drawer::dashed_line_pixels(-4, 3, 15, -9);
    let expected: Vec<(i32, i32)> = solid
        .iter()
        .enumerate()
        .filter(|(i, _)| *i == 0 || (*i - 1) % 8 <= 3)
        .map(|(_, p)| *p)
        .collect();
    assert_eq!(dashes, expected);
}

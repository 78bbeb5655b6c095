//! The pixels of a straight line between two pixels, solid or dashed.
use vstd::arithmetic::div_mod::lemma_fundamental_div_mod_converse_div;
use vstd::prelude::*;

verus! {

/// The drawing side of the editor. What it computes is here; what it
/// paints is painted by whoever holds a painter.
pub struct Drawer;

/// How many pixels a dash of a dashed line is long, gap included.
pub const DASH_PERIOD: usize = 8;

/// How many pixels of each period are painted.
pub const DASH_LENGTH: usize = 4;

/// How far apart `a` and `b` are.
pub open spec fn span(a: int, b: int) -> int {
    if a <= b {
        b - a
    } else {
        a - b
    }
}

/// The coordinate `steps` pixels from `from` on the way to `to`.
pub open spec fn towards(from: int, to: int, steps: int) -> int {
    if from <= to {
        from + steps
    } else {
        from - steps
    }
}

/// How far a line has come along its shorter side when it has come `i`
/// pixels along its longer side: `i` times the slope `minor / major`,
/// rounded to the nearest integer, a half upwards.
pub open spec fn rounded_share(major: int, minor: int, i: int) -> int {
    (2 * minor * i + major) / (2 * major)
}

/// The number of pixels of the line between two pixels: one more than the
/// longer of its two sides.
pub open spec fn line_length(x1: int, y1: int, x2: int, y2: int) -> int {
    if span(x1, x2) > span(y1, y2) {
        span(x1, x2) + 1
    } else {
        span(y1, y2) + 1
    }
}

/// Pixel `i` of the line from `(x1, y1)` to `(x2, y2)`. Along the longer
/// side the line advances one pixel at a time; along the shorter side it has
/// come its rounded share. A line as high as it is wide counts as high.
pub open spec fn line_pixel(x1: int, y1: int, x2: int, y2: int, i: int) -> (int, int) {
    let width = span(x1, x2);
    let height = span(y1, y2);
    if width > height {
        (towards(x1, x2, i), towards(y1, y2, rounded_share(width, height, i)))
    } else if height > 0 {
        (towards(x1, x2, rounded_share(height, width, i)), towards(y1, y2, i))
    } else {
        (x1, y1)
    }
}

/// The line from `(x1, y1)` to `(x2, y2)`, pixel by pixel.
pub open spec fn line(x1: i32, y1: i32, x2: i32, y2: i32) -> Seq<(i32, i32)> {
    Seq::new(
        line_length(x1 as int, y1 as int, x2 as int, y2 as int) as nat,
        |i: int|
            (
                line_pixel(x1 as int, y1 as int, x2 as int, y2 as int, i).0 as i32,
                line_pixel(x1 as int, y1 as int, x2 as int, y2 as int, i).1 as i32,
            ),
    )
}

/// Whether pixel `i` of a dashed line is painted: the first one always, and
/// of the others the first `DASH_LENGTH` of each `DASH_PERIOD`, counted from
/// the second pixel.
pub open spec fn is_painted(i: int) -> bool {
    i == 0 || (i - 1) % (DASH_PERIOD as int) < DASH_LENGTH as int
}

/// The painted pixels of `pixels`, in their order.
pub open spec fn dashes_of(pixels: Seq<(i32, i32)>) -> Seq<(i32, i32)>
    decreases pixels.len(),
{
    if pixels.len() == 0 {
        pixels
    } else if is_painted(pixels.len() - 1) {
        dashes_of(pixels.drop_last()).push(pixels.last())
    } else {
        dashes_of(pixels.drop_last())
    }
}

/// The quotient that lies between the bounds which the error term of the
/// line keeps is the rounded share.
proof fn lemma_rounded_share(major: int, minor: int, i: int, k: int, d: int)
    requires
        major > 0,
        d == 2 * minor * (i + 1) - major - 2 * major * k,
        2 * minor - 2 * major <= d < 2 * minor,
    ensures
        k == rounded_share(major, minor, i),
{
    let r = d - 2 * minor + 2 * major;
    assert(2 * minor * (i + 1) == 2 * minor * i + 2 * minor) by (nonlinear_arith);
    assert(2 * major * k == k * (2 * major)) by (nonlinear_arith);
    lemma_fundamental_div_mod_converse_div(2 * minor * i + major, 2 * major, k, r);
}

/// The line starts at its first pixel and ends at its last.
pub proof fn lemma_line_joins_its_ends(x1: int, y1: int, x2: int, y2: int)
    ensures
        line_pixel(x1, y1, x2, y2, 0) == (x1, y1),
        line_pixel(x1, y1, x2, y2, line_length(x1, y1, x2, y2) - 1) == (x2, y2),
{
    let width = span(x1, x2);
    let height = span(y1, y2);
    let major = if width > height {
        width
    } else {
        height
    };
    let minor = if width > height {
        height
    } else {
        width
    };
    if major > 0 {
        assert(2 * minor * 0 + major == 0 * (2 * major) + major) by (nonlinear_arith);
        lemma_fundamental_div_mod_converse_div(2 * minor * 0 + major, 2 * major, 0, major);
        assert(2 * minor * major + major == minor * (2 * major) + major) by (nonlinear_arith);
        lemma_fundamental_div_mod_converse_div(2 * minor * major + major, 2 * major, minor, major);
    }
}

impl Drawer {
    /// The pixels of the line from `(x1, y1)` to `(x2, y2)`, from the first
    /// to the last.
    pub fn line_pixels(x1: i32, y1: i32, x2: i32, y2: i32) -> (r: Vec<(i32, i32)>)
        ensures
            r@ == line(x1, y1, x2, y2),
            r@.len() == line_length(x1 as int, y1 as int, x2 as int, y2 as int),
            r@[0] == (x1, y1),
            r@[r@.len() - 1] == (x2, y2),
            forall|i: int|
                0 <= i < r@.len() ==> ((#[trigger] r@[i]).0 as int, r@[i].1 as int) == line_pixel(
                    x1 as int,
                    y1 as int,
                    x2 as int,
                    y2 as int,
                    i,
                ),
    {
        let dx: i64 = x2 as i64 - x1 as i64;
        let dy: i64 = y2 as i64 - y1 as i64;
        let abs_dx: i64 = if dx < 0 {
            -dx
        } else {
            dx
        };
        let abs_dy: i64 = if dy < 0 {
            -dy
        } else {
            dy
        };
        let flat = abs_dx > abs_dy;
        let major: i64 = if flat {
            abs_dx
        } else {
            abs_dy
        };
        let minor: i64 = if flat {
            abs_dy
        } else {
            abs_dx
        };
        let mut x: i32 = x1;
        let mut y: i32 = y1;
        let mut pixels: Vec<(i32, i32)> = Vec::new();
        pixels.push((x, y));
        let mut d: i64 = 2 * minor - major;
        let mut i: i64 = 0;
        let ghost mut k: int = 0;
        proof {
            assert(2 * minor * (i + 1) - major - 2 * major * k == 2 * minor - major)
                by (nonlinear_arith)
                requires
                    i == 0,
                    k == 0,
            ;
            if major > 0 {
                lemma_rounded_share(major as int, minor as int, 0, 0, d as int);
            }
        }
        while i < major
            invariant
                dx == x2 - x1,
                dy == y2 - y1,
                abs_dx == span(x1 as int, x2 as int),
                abs_dy == span(y1 as int, y2 as int),
                flat == (abs_dx > abs_dy),
                major == if flat { abs_dx } else { abs_dy },
                minor == if flat { abs_dy } else { abs_dx },
                0 <= minor <= major,
                flat ==> minor < major,
                0 <= i <= major,
                0 <= k <= minor,
                k <= i,
                d == 2 * minor * (i + 1) - major - 2 * major * k,
                2 * minor - 2 * major <= d < 2 * minor || major == 0,
                x == towards(x1 as int, x2 as int, if flat { i as int } else { k }),
                y == towards(y1 as int, y2 as int, if flat { k } else { i as int }),
                pixels@.len() == i + 1,
                forall|j: int|
                    0 <= j <= i ==> ((#[trigger] pixels@[j]).0 as int, pixels@[j].1 as int)
                        == line_pixel(x1 as int, y1 as int, x2 as int, y2 as int, j),
            decreases major - i,
        {
            let ghost old_d = d as int;
            if flat {
                x = if dx < 0 {
                    x - 1
                } else {
                    x + 1
                };
            } else {
                y = if dy < 0 {
                    y - 1
                } else {
                    y + 1
                };
            }
            if d < 0 {
                d = d + 2 * minor;
                proof {
                    assert(2 * minor * (i + 2) == 2 * minor * (i + 1) + 2 * minor)
                        by (nonlinear_arith);
                }
            } else {
                proof {
                    // The error term is not negative, so the line has not
                    // come its whole shorter side yet.
                    assert(minor * (i + 1) <= minor * major) by (nonlinear_arith)
                        requires
                            0 <= minor,
                            i + 1 <= major,
                    ;
                    assert(k < minor) by (nonlinear_arith)
                        requires
                            major > 0,
                            2 * minor * (i + 1) - major - 2 * major * k >= 0,
                            minor * (i + 1) <= minor * major,
                    ;
                    assert(2 * minor * (i + 2) - major - 2 * major * (k + 1) == 2 * minor * (i + 1)
                        - major - 2 * major * k + 2 * minor - 2 * major) by (nonlinear_arith);
                }
                if flat {
                    y = if dy < 0 {
                        y - 1
                    } else {
                        y + 1
                    };
                } else {
                    x = if dx < 0 {
                        x - 1
                    } else {
                        x + 1
                    };
                }
                d = d + 2 * minor - 2 * major;
                proof {
                    k = k + 1;
                }
            }
            i = i + 1;
            pixels.push((x, y));
            proof {
                lemma_rounded_share(major as int, minor as int, i as int, k, d as int);
            }
        }
        assert(pixels@ =~= line(x1, y1, x2, y2));
        proof {
            lemma_line_joins_its_ends(x1 as int, y1 as int, x2 as int, y2 as int);
        }
        pixels
    }

    /// The painted pixels of the dashed line from `(x1, y1)` to `(x2, y2)`.
    pub fn dashed_line_pixels(x1: i32, y1: i32, x2: i32, y2: i32) -> (r: Vec<(i32, i32)>)
        ensures
            r@ == dashes_of(line(x1, y1, x2, y2)),
    {
        let pixels = Self::line_pixels(x1, y1, x2, y2);
        let mut dashes: Vec<(i32, i32)> = Vec::new();
        let mut i: usize = 0;
        while i < pixels.len()
            invariant
                i <= pixels.len(),
                dashes@ == dashes_of(pixels@.take(i as int)),
            decreases pixels.len() - i,
        {
            if i == 0 || (i - 1) % DASH_PERIOD < DASH_LENGTH {
                dashes.push(pixels[i]);
            }
            proof {
                assert(pixels@.take(i + 1).drop_last() =~= pixels@.take(i as int));
            }
            i += 1;
        }
        assert(pixels@.take(i as int) =~= pixels@);
        dashes
    }
}

} // verus!

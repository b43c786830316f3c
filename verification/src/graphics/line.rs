//! Integer line rasterization (Bresenham), one pixel per step along the
//! line's longer axis.

use vstd::prelude::*;

verus! {

/// Distance between two coordinates.
pub open spec fn span(from: int, to: int) -> int {
    if from <= to { to - from } else { from - to }
}

/// Direction of a step from `from` towards `to`.
pub open spec fn direction(from: int, to: int) -> int {
    if from < to { 1 } else { -1 }
}

/// Position and error term after `steps` steps of the line from `(x0, y0)`
/// to `(x1, y1)`.
pub open spec fn line_state(x0: int, y0: int, x1: int, y1: int, steps: nat) -> (int, int, int)
    decreases steps,
{
    let dx = span(x0, x1);
    let dy = -span(y0, y1);
    if steps == 0 {
        (x0, y0, dx + dy)
    } else {
        let previous = line_state(x0, y0, x1, y1, (steps - 1) as nat);
        let doubled = 2 * previous.2;
        let (x, error) = if doubled >= dy {
            (previous.0 + direction(x0, x1), previous.2 + dy)
        } else {
            (previous.0, previous.2)
        };
        if doubled <= dx {
            (x, previous.1 + direction(y0, y1), error + dx)
        } else {
            (x, previous.1, error)
        }
    }
}

/// The pixel after `steps` steps.
pub open spec fn line_point(x0: int, y0: int, x1: int, y1: int, steps: nat) -> (int, int) {
    let state = line_state(x0, y0, x1, y1, steps);
    (state.0, state.1)
}

/// Below this distance per axis every intermediate value fits in `i64`.
pub open spec fn line_fits(x0: i64, y0: i64, x1: i64, y1: i64) -> bool {
    &&& span(x0 as int, x1 as int) < 0x2000_0000_0000_0000
    &&& span(y0 as int, y1 as int) < 0x2000_0000_0000_0000
}

/// The pixels of the line from `(x0, y0)` to `(x1, y1)`, both ends
/// included, in order: the first steps of the Bresenham walk up to the first
/// that reaches the end.
pub fn rasterize_line(x0: i64, y0: i64, x1: i64, y1: i64) -> (points: Vec<(i64, i64)>)
    requires
        line_fits(x0, y0, x1, y1),
    ensures
        points@.len() >= 1,
        forall|i: int|
            0 <= i < points@.len() ==> (#[trigger] points@[i]).0 == line_point(x0 as int, y0 as int, x1 as int, y1 as int, i as nat).0
                && points@[i].1 == line_point(x0 as int, y0 as int, x1 as int, y1 as int, i as nat).1,
        line_point(x0 as int, y0 as int, x1 as int, y1 as int, (points@.len() - 1) as nat) == (x1 as int, y1 as int),
        forall|i: int|
            0 <= i < points@.len() - 1 ==> #[trigger] line_point(x0 as int, y0 as int, x1 as int, y1 as int, i as nat)
                != (x1 as int, y1 as int),
{
    let ghost gx0 = x0 as int;
    let ghost gy0 = y0 as int;
    let ghost gx1 = x1 as int;
    let ghost gy1 = y1 as int;
    let dx: i64 = if x0 < x1 { x1 - x0 } else { x0 - x1 };
    let step_x: i64 = if x0 < x1 { 1 } else { -1 };
    let dy: i64 = if y0 < y1 { y0 - y1 } else { y1 - y0 };
    let step_y: i64 = if y0 < y1 { 1 } else { -1 };
    let ghost dy_span: int = -dy;
    let mut x = x0;
    let mut y = y0;
    let mut error = dx + dy;
    let mut points: Vec<(i64, i64)> = Vec::new();
    let ghost mut moved_x: int = 0;
    let ghost mut moved_y: int = 0;
    let ghost mut steps: nat = 0;
    assert(dx * (1 + moved_y) - dy_span * (1 + moved_x) == dx - dy_span) by (nonlinear_arith)
        requires moved_x == 0, moved_y == 0;
    loop
        invariant_except_break
            points@.len() == steps,
        invariant
            gx0 == x0 as int,
            gy0 == y0 as int,
            gx1 == x1 as int,
            gy1 == y1 as int,
            dx == span(gx0, gx1),
            dy == -span(gy0, gy1),
            dy_span == -dy,
            step_x == direction(gx0, gx1),
            step_y == direction(gy0, gy1),
            dx < 0x2000_0000_0000_0000,
            dy_span < 0x2000_0000_0000_0000,
            0 <= moved_x <= dx,
            0 <= moved_y <= dy_span,
            x == if gx0 < gx1 { gx0 + moved_x } else { gx0 - moved_x },
            y == if gy0 < gy1 { gy0 + moved_y } else { gy0 - moved_y },
            error == dx * (1 + moved_y) - dy_span * (1 + moved_x),
            2 * dy <= error <= 2 * dx,
            line_state(gx0, gy0, gx1, gy1, steps) == (x as int, y as int, error as int),
            forall|i: int|
                0 <= i < steps ==> (#[trigger] points@[i]).0 == line_point(gx0, gy0, gx1, gy1, i as nat).0
                    && points@[i].1 == line_point(gx0, gy0, gx1, gy1, i as nat).1,
            forall|i: int| 0 <= i < steps ==> #[trigger] line_point(gx0, gy0, gx1, gy1, i as nat) != (gx1, gy1),
        ensures
            points@.len() == steps + 1,
            forall|i: int|
                0 <= i < points@.len() ==> (#[trigger] points@[i]).0 == line_point(gx0, gy0, gx1, gy1, i as nat).0
                    && points@[i].1 == line_point(gx0, gy0, gx1, gy1, i as nat).1,
            line_point(gx0, gy0, gx1, gy1, steps) == (gx1, gy1),
            forall|i: int| 0 <= i < steps ==> #[trigger] line_point(gx0, gy0, gx1, gy1, i as nat) != (gx1, gy1),
        decreases (dx - moved_x) + (dy_span - moved_y),
    {
        points.push((x, y));
        if x == x1 && y == y1 {
            assert(line_point(gx0, gy0, gx1, gy1, steps) == (x as int, y as int));
            break;
        }
        proof {
            assert(line_point(gx0, gy0, gx1, gy1, steps) == (x as int, y as int));
            if moved_x == dx {
                assert(x as int == gx1);
                assert(y as int != gy1);
                assert(moved_y < dy_span);
                assert(dx * (1 + moved_y) <= dx * dy_span) by (nonlinear_arith)
                    requires 0 <= dx, 1 + moved_y <= dy_span;
                assert(dy_span * (1 + moved_x) == dy_span + dx * dy_span) by (nonlinear_arith)
                    requires moved_x == dx;
                assert(2 * error < dy);
            }
            if moved_y == dy_span {
                assert(moved_x < dx);
                assert(dy_span * (dx - 1 - moved_x) >= 0) by (nonlinear_arith)
                    requires dy_span >= 0, dx - 1 - moved_x >= 0;
                assert(error == dx + dy_span * (dx - 1 - moved_x)) by (nonlinear_arith)
                    requires error == dx * (1 + moved_y) - dy_span * (1 + moved_x), moved_y == dy_span;
                assert(2 * error > dx);
            }
        }
        let doubled = 2 * error;
        let ghost old_error = error as int;
        let ghost old_x = moved_x;
        let ghost old_y = moved_y;
        if doubled >= dy {
            error += dy;
            x += step_x;
            proof {
                moved_x = moved_x + 1;
            }
        }
        if doubled <= dx {
            error += dx;
            y += step_y;
            proof {
                moved_y = moved_y + 1;
            }
        }
        proof {
            assert(error == dx * (1 + moved_y) - dy_span * (1 + moved_x)) by (nonlinear_arith)
                requires
                    old_error == dx * (1 + old_y) - dy_span * (1 + old_x),
                    moved_x == old_x || moved_x == old_x + 1,
                    moved_y == old_y || moved_y == old_y + 1,
                    moved_x == old_x + 1 && moved_y == old_y + 1 ==> error == old_error - dy_span + dx,
                    moved_x == old_x + 1 && moved_y == old_y ==> error == old_error - dy_span,
                    moved_x == old_x && moved_y == old_y + 1 ==> error == old_error + dx,
                    moved_x == old_x && moved_y == old_y ==> error == old_error;
            steps = steps + 1;
        }
    }
    points
}

} // verus!

verus! {

/// Along a line at least as wide as tall, every step moves one pixel in x;
/// after `steps` steps y has moved some `moved_y` pixels, and the error term
/// stays above `dy / 2`.
proof fn lemma_wide_line(x0: int, y0: int, x1: int, y1: int, steps: nat) -> (moved_y: int)
    requires
        span(y0, y1) <= span(x0, x1),
        1 <= span(x0, x1),
        steps <= span(x0, x1),
    ensures
        0 <= moved_y <= span(y0, y1),
        line_state(x0, y0, x1, y1, steps) == (
            if x0 < x1 { x0 + steps } else { x0 - steps },
            if y0 < y1 { y0 + moved_y } else { y0 - moved_y },
            span(x0, x1) * (1 + moved_y) - span(y0, y1) * (1 + steps),
        ),
        2 * line_state(x0, y0, x1, y1, steps).2 > -span(y0, y1),
    decreases steps,
{
    let dx = span(x0, x1);
    let tall = span(y0, y1);
    if steps == 0 {
        assert(dx * (1 + 0) - tall * (1 + 0) == dx - tall) by (nonlinear_arith);
        0
    } else {
        let before = lemma_wide_line(x0, y0, x1, y1, (steps - 1) as nat);
        let previous = line_state(x0, y0, x1, y1, (steps - 1) as nat);
        let error = previous.2;
        if 2 * error <= dx {
            if before == tall {
                assert(error == dx + tall * (dx - steps)) by (nonlinear_arith)
                    requires
                        error == dx * (1 + before) - tall * (1 + (steps - 1)),
                        before == tall;
                assert(tall * (dx - steps) >= 0) by (nonlinear_arith)
                    requires tall >= 0, dx - steps >= 0;
            }
            assert(dx * (1 + (before + 1)) - tall * (1 + steps) == error - tall + dx) by (nonlinear_arith)
                requires error == dx * (1 + before) - tall * (1 + (steps - 1));
            before + 1
        } else {
            assert(dx * (1 + before) - tall * (1 + steps) == error - tall) by (nonlinear_arith)
                requires error == dx * (1 + before) - tall * (1 + (steps - 1));
            before
        }
    }
}

/// Along a line at least as tall as wide, every step moves one pixel in y;
/// after `steps` steps x has moved some `moved_x` pixels, and the error term
/// stays below `dx / 2`.
proof fn lemma_tall_line(x0: int, y0: int, x1: int, y1: int, steps: nat) -> (moved_x: int)
    requires
        span(x0, x1) <= span(y0, y1),
        1 <= span(y0, y1),
        steps <= span(y0, y1),
    ensures
        0 <= moved_x <= span(x0, x1),
        line_state(x0, y0, x1, y1, steps) == (
            if x0 < x1 { x0 + moved_x } else { x0 - moved_x },
            if y0 < y1 { y0 + steps } else { y0 - steps },
            span(x0, x1) * (1 + steps) - span(y0, y1) * (1 + moved_x),
        ),
        2 * line_state(x0, y0, x1, y1, steps).2 < span(x0, x1),
    decreases steps,
{
    let wide = span(x0, x1);
    let tall = span(y0, y1);
    if steps == 0 {
        assert(wide * (1 + 0) - tall * (1 + 0) == wide - tall) by (nonlinear_arith);
        0
    } else {
        let before = lemma_tall_line(x0, y0, x1, y1, (steps - 1) as nat);
        let previous = line_state(x0, y0, x1, y1, (steps - 1) as nat);
        let error = previous.2;
        if 2 * error >= -tall {
            if before == wide {
                assert(error == -tall - tall * wide + wide * steps) by (nonlinear_arith)
                    requires
                        error == wide * (1 + (steps - 1)) - tall * (1 + before),
                        before == wide;
                assert(wide * steps <= wide * tall) by (nonlinear_arith)
                    requires 0 <= wide, steps <= tall;
            }
            assert(wide * (1 + steps) - tall * (1 + (before + 1)) == error - tall + wide) by (nonlinear_arith)
                requires error == wide * (1 + (steps - 1)) - tall * (1 + before);
            before + 1
        } else {
            assert(wide * (1 + steps) - tall * (1 + before) == error + wide) by (nonlinear_arith)
                requires error == wide * (1 + (steps - 1)) - tall * (1 + before);
            before
        }
    }
}

/// A rasterized line has one pixel per unit of its longer axis, plus one:
/// the walk first reaches the end after exactly that many steps.
pub proof fn lemma_line_length(x0: int, y0: int, x1: int, y1: int)
    ensures
        ({
            let steps = if span(x0, x1) >= span(y0, y1) { span(x0, x1) } else { span(y0, y1) };
            &&& line_point(x0, y0, x1, y1, steps as nat) == (x1, y1)
            &&& forall|i: nat| i < steps ==> #[trigger] line_point(x0, y0, x1, y1, i) != (x1, y1)
        }),
{
    let dx = span(x0, x1);
    let tall = span(y0, y1);
    if dx == 0 && tall == 0 {
    } else if dx >= tall {
        let moved_y = lemma_wide_line(x0, y0, x1, y1, dx as nat);
        if moved_y < tall {
            assert(dx * (1 + moved_y) <= dx * tall) by (nonlinear_arith)
                requires 0 <= dx, 1 + moved_y <= tall;
            assert(tall * (1 + dx) == tall + dx * tall) by (nonlinear_arith);
        }
        assert forall|i: nat| i < dx implies #[trigger] line_point(x0, y0, x1, y1, i) != (x1, y1) by {
            lemma_wide_line(x0, y0, x1, y1, i);
        }
    } else {
        let moved_x = lemma_tall_line(x0, y0, x1, y1, tall as nat);
        if moved_x < dx {
            assert(tall * (1 + moved_x) <= tall * dx) by (nonlinear_arith)
                requires 0 <= tall, 1 + moved_x <= dx;
            assert(dx * (1 + tall) == dx + dx * tall) by (nonlinear_arith);
        }
        assert forall|i: nat| i < tall implies #[trigger] line_point(x0, y0, x1, y1, i) != (x1, y1) by {
            lemma_tall_line(x0, y0, x1, y1, i);
        }
    }
}

/// Consecutive pixels of a line touch: each step moves at most one pixel
/// along each axis, and at least one along some axis.
pub proof fn lemma_line_steps_touch(x0: int, y0: int, x1: int, y1: int, steps: nat)
    ensures
        ({
            let here = line_point(x0, y0, x1, y1, steps);
            let next = line_point(x0, y0, x1, y1, steps + 1);
            &&& -1 <= next.0 - here.0 <= 1
            &&& -1 <= next.1 - here.1 <= 1
            &&& next != here
        }),
{
    assert(line_state(x0, y0, x1, y1, steps + 1) == {
        let previous = line_state(x0, y0, x1, y1, steps);
        let dx = span(x0, x1);
        let dy = -span(y0, y1);
        let doubled = 2 * previous.2;
        let (x, error) = if doubled >= dy {
            (previous.0 + direction(x0, x1), previous.2 + dy)
        } else {
            (previous.0, previous.2)
        };
        if doubled <= dx {
            (x, previous.1 + direction(y0, y1), error + dx)
        } else {
            (x, previous.1, error)
        }
    });
}

} // verus!

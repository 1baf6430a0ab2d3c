use tag_sim::agent::stretch_at_max_speed;
use tag_sim::agent::turn_at_edges;
use tag_sim::agent::MAX_SPEED;
use tag_sim::geometry::isqrt;
use tag_sim::geometry::PlayArea;
use tag_sim::geometry::Vec2;

/// Fixed-point coordinate units per world unit.
const U: i64 = 1000;

fn v(x: i64, y: i64) -> Vec2 {
    Vec2 { x, y }
}

fn sqlen_of(d: Vec2) -> i64 {
    d.x * d.x + d.y * d.y
}

fn assert_contained(area: &PlayArea, start: Vec2, stretch: Vec2) {
    let end = v(start.x + stretch.x, start.y + stretch.y);
    assert!(
        area.contains(&end),
        "area {:?} didn't contain {:?} + {:?} = {:?}",
        area,
        start,
        stretch,
        end
    );
}

/// The redirected squared length stays within the fixed-point rounding
/// tolerance of the desired squared length.
fn assert_full_speed(stretch: Vec2, desired: Vec2) {
    let want = sqlen_of(desired);
    let got = sqlen_of(stretch);
    assert!(
        want - 6000 <= got && got <= want,
        "stretch {:?} has squared length {} instead of about {}",
        stretch,
        got,
        want
    );
}

#[test]
fn test_avoid_corners() {
    let area = PlayArea::from_points(v(0, 0), v(10 * U, 10 * U));
    let close_to_right_top = v(9 * U, 8 * U);

    // heading 91 degrees, length 3 world units
    let d_91 = v(-52, 2999);
    let past_top = turn_at_edges(&area, &close_to_right_top, &d_91);
    assert_full_speed(past_top, d_91);
    assert_contained(&area, close_to_right_top, past_top);

    // heading -91 degrees stays inside and is unchanged
    let d_m91 = v(-52, -2999);
    let ok_1 = turn_at_edges(&area, &close_to_right_top, &d_m91);
    assert_eq!(ok_1, d_m91);
    assert_contained(&area, close_to_right_top, ok_1);

    // heading 1 degree runs through the right edge
    let d_1 = v(2999, 52);
    let past_right = turn_at_edges(&area, &close_to_right_top, &d_1);
    assert_full_speed(past_right, d_1);
    assert_contained(&area, close_to_right_top, past_right);

    // heading -179 degrees stays inside and is unchanged
    let d_m179 = v(-2999, -52);
    let ok_2 = turn_at_edges(&area, &close_to_right_top, &d_m179);
    assert_eq!(ok_2, d_m179);
    assert_contained(&area, close_to_right_top, ok_2);

    // heading 45 degrees into the top-right corner
    let d_45 = v(2121, 2121);
    let past_top_and_right = turn_at_edges(&area, &close_to_right_top, &d_45);
    assert_contained(&area, close_to_right_top, past_top_and_right);

    let close_to_left_bottom = v(3 * U, 1 * U);

    // heading straight up stays inside and is unchanged
    let d_90 = v(0, 3 * U);
    let ok_3 = turn_at_edges(&area, &close_to_left_bottom, &d_90);
    assert_eq!(ok_3, d_90);
    assert_contained(&area, close_to_left_bottom, ok_3);

    // heading straight down runs through the bottom edge
    let d_m90 = v(0, -3 * U);
    let past_bottom = turn_at_edges(&area, &close_to_left_bottom, &d_m90);
    assert_full_speed(past_bottom, d_m90);
    assert_contained(&area, close_to_left_bottom, past_bottom);

    // heading right stays inside and is unchanged
    let d_0 = v(3 * U, 0);
    let ok_4 = turn_at_edges(&area, &close_to_left_bottom, &d_0);
    assert_eq!(ok_4, d_0);
    assert_contained(&area, close_to_left_bottom, ok_4);

    // heading left lands exactly on the edge, which is inclusive
    let d_180 = v(-3 * U, 0);
    let past_left = turn_at_edges(&area, &close_to_left_bottom, &d_180);
    assert_full_speed(past_left, d_180);
    assert_contained(&area, close_to_left_bottom, past_left);

    // heading 225 degrees toward the bottom-left corner
    let d_225 = v(-2121, -2121);
    let past_bottom_and_left = turn_at_edges(&area, &close_to_left_bottom, &d_225);
    assert_contained(&area, close_to_left_bottom, past_bottom_and_left);
}

#[test]
fn corner_redirection_keeps_speed() {
    // area [(0,0),(10,10)], position (9,8), 45 degrees at length 3: the
    // corrected displacement keeps (almost exactly) length 3 and its
    // endpoint lies strictly inside the area.
    let area = PlayArea::from_points(v(0, 0), v(10 * U, 10 * U));
    let position = v(9 * U, 8 * U);
    let desired = v(2121, 2121);
    let corrected = turn_at_edges(&area, &position, &desired);
    assert_full_speed(corrected, desired);
    let end = v(position.x + corrected.x, position.y + corrected.y);
    assert!(0 < end.x && end.x < 10 * U);
    assert!(0 < end.y && end.y < 10 * U);
    // the exact outcome of the corner fallback: pulled to the right margin
    assert_eq!(corrected, v(900, -2861));
}

#[test]
fn no_op_fast_path() {
    let area = PlayArea::from_points(v(0, 0), v(100 * U, 100 * U));
    let position = v(50 * U, 50 * U);
    let desired = v(1234, -987);
    assert_eq!(turn_at_edges(&area, &position, &desired), desired);
}

#[test]
fn scaling_hits_max_speed_exactly() {
    // a 3-4-5 triangle scales without any rounding
    let r = stretch_at_max_speed(&v(3000, 4000));
    assert_eq!(r, v(1200, 1600));
    assert_eq!(sqlen_of(r), MAX_SPEED * MAX_SPEED);
    // negative components keep their headings
    assert_eq!(stretch_at_max_speed(&v(-3000, 4000)), v(-1200, 1600));
    assert_eq!(stretch_at_max_speed(&v(0, -5000)), v(0, -MAX_SPEED));
    // a zero vector has no direction and defaults to angle zero
    assert_eq!(stretch_at_max_speed(&v(0, 0)), v(MAX_SPEED, 0));
}

#[test]
fn isqrt_exact_values() {
    assert_eq!(isqrt(0), 0);
    assert_eq!(isqrt(1), 1);
    assert_eq!(isqrt(8), 2);
    assert_eq!(isqrt(9), 3);
    assert_eq!(isqrt(5386705), 2320);
    assert_eq!(isqrt(18446744065119617024), 4294967294);
    assert_eq!(isqrt(u64::MAX), 4294967295);
}

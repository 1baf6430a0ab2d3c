//! The player decision rule and the boundary-redirection geometry.
//!
//! A runner keeps a constant target speed. When its desired displacement
//! would leave the play area, the displacement is redirected along a circle
//! of the same radius centred on the runner so that it lands on the
//! margin-adjusted boundary instead; when that correction still overshoots
//! the perpendicular edge (a corner), the same circle equation is solved
//! once more against that edge.

use vstd::arithmetic::div_mod::lemma_div_is_ordered;
use vstd::arithmetic::div_mod::lemma_div_multiples_vanish;
use vstd::arithmetic::mul::lemma_mul_inequality;
use vstd::prelude::*;

use crate::geometry::abs_i;
use crate::geometry::diff_in_range;
use crate::geometry::isqrt;
use crate::geometry::lemma_sq_le;
use crate::geometry::pos_plus;
use crate::geometry::lemma_sqrt_floor_is;
use crate::geometry::sign_of;
use crate::geometry::sq;
use crate::geometry::sqlen;
use crate::geometry::sqrt_floor;
use crate::geometry::square_length;
use crate::geometry::stretch_in_limit;
use crate::geometry::vec_in_range;
use crate::geometry::vec_minus;
use crate::geometry::PlayArea;
use crate::geometry::Vec2;
use crate::geometry::COORD_LIMIT;
use crate::environment::closest_spec;
use crate::environment::first_it;
use crate::environment::has_it;
use crate::environment::lemma_first_it;
use crate::environment::PlayerId;
use crate::environment::TagEnvironment;
use crate::environment::TagError;
use crate::environment::TagPlayerAction;

verus! {

/// How far a player can reach to tag another player (one world unit).
pub const ARM_LENGTH: i64 = 1000;

/// How far a player can run each step (two world units).
pub const MAX_SPEED: i64 = 2000;

/// Inward offset from an edge used by the redirection, so a redirected
/// runner never comes to rest exactly on the wall (a tenth of a world unit).
pub const EDGE_MARGIN: i64 = 100;

pub open spec fn swap_xy(v: Vec2) -> Vec2 {
    Vec2 { x: v.y, y: v.x }
}

pub open spec fn swap_area(a: PlayArea) -> PlayArea {
    PlayArea { min_x: a.min_y, min_y: a.min_x, max_x: a.max_y, max_y: a.max_x }
}

/// The margin-adjusted Y line the redirection aims for: just inside the
/// edge that the raw target crosses (the bottom edge when it does not cross
/// the top).
pub open spec fn broken_y_bound(area: PlayArea, from: Vec2, stretch: Vec2) -> int {
    if from.y + stretch.y > area.max_y {
        area.max_y - EDGE_MARGIN
    } else {
        area.min_y + EDGE_MARGIN
    }
}

/// The X coordinate reached by sliding along the circle of radius
/// `|stretch|` around `from` until the Y coordinate meets the broken bound,
/// keeping the X heading of the desired displacement.
pub open spec fn redirected_x_spec(area: PlayArea, from: Vec2, stretch: Vec2) -> int {
    from.x + sign_of(stretch.x as int) * sqrt_floor(
        abs_i(sq(from.y - broken_y_bound(area, from, stretch)) - sqlen(stretch)),
    )
}

/// The absolute target point of the Y-bound redirection, before it is
/// turned back into a displacement.
pub open spec fn redirect_y_target(area: PlayArea, from: Vec2, stretch: Vec2) -> (int, int) {
    let by = broken_y_bound(area, from, stretch);
    let rx = redirected_x_spec(area, from, stretch);
    if rx > area.max_x {
        let lx = area.max_x - EDGE_MARGIN;
        let y_off = sqrt_floor(abs_i(sq(from.x - lx) - sqlen(stretch)));
        (lx, from.y - y_off)
    } else if rx < area.min_x {
        let lx = area.min_x + EDGE_MARGIN;
        let y_off = sqrt_floor(abs_i(sq(from.x - lx) - sqlen(stretch)));
        (lx, from.y + y_off)
    } else {
        (rx, by)
    }
}

/// Displacement returned when the raw target crosses the Y bounds.
pub open spec fn redirect_y_spec(area: PlayArea, from: Vec2, stretch: Vec2) -> Vec2 {
    let t = redirect_y_target(area, from, stretch);
    Vec2 { x: (t.0 - from.x) as i64, y: (t.1 - from.y) as i64 }
}

/// Displacement returned when the raw target crosses the X bounds: the
/// Y-bound redirection with the axes swapped.
pub open spec fn redirect_x_spec(area: PlayArea, from: Vec2, stretch: Vec2) -> Vec2 {
    swap_xy(redirect_y_spec(swap_area(area), swap_xy(from), swap_xy(stretch)))
}

/// What `turn_at_edges` returns: the raw displacement when its target stays
/// inside the area, otherwise the redirection for the crossed axis; when
/// both axes are crossed, the axis with the larger raw component is
/// resolved first.
pub open spec fn turn_spec(area: PlayArea, from: Vec2, stretch: Vec2) -> Vec2 {
    let tx = from.x + stretch.x;
    let ty = from.y + stretch.y;
    let x_in = area.min_x <= tx <= area.max_x;
    let y_in = area.min_y <= ty <= area.max_y;
    if x_in && y_in {
        stretch
    } else if !x_in && !y_in {
        if stretch.x > stretch.y {
            redirect_x_spec(area, from, stretch)
        } else {
            redirect_y_spec(area, from, stretch)
        }
    } else if !y_in {
        redirect_y_spec(area, from, stretch)
    } else {
        redirect_x_spec(area, from, stretch)
    }
}

pub open spec fn raw_target_x_in(area: PlayArea, from: Vec2, stretch: Vec2) -> bool {
    area.min_x <= from.x + stretch.x <= area.max_x
}

pub open spec fn raw_target_y_in(area: PlayArea, from: Vec2, stretch: Vec2) -> bool {
    area.min_y <= from.y + stretch.y <= area.max_y
}

/// `turn_spec` resolves the Y axis (directly or as the second choice of the
/// corner dispatch).
pub open spec fn turn_takes_y(area: PlayArea, from: Vec2, stretch: Vec2) -> bool {
    !raw_target_y_in(area, from, stretch) && (raw_target_x_in(area, from, stretch) || stretch.x
        <= stretch.y)
}

/// `turn_spec` resolves the X axis.
pub open spec fn turn_takes_x(area: PlayArea, from: Vec2, stretch: Vec2) -> bool {
    !raw_target_x_in(area, from, stretch) && (raw_target_y_in(area, from, stretch) || stretch.x
        > stretch.y)
}

/// The margin-adjusted bounds are ordered: the rectangle is at least two
/// margins wide and two margins tall.
pub open spec fn margins_fit(area: PlayArea) -> bool {
    &&& area.min_x + EDGE_MARGIN <= area.max_x - EDGE_MARGIN
    &&& area.min_y + EDGE_MARGIN <= area.max_y - EDGE_MARGIN
}

/// A same-length redirection exists for the Y-bound procedure: each
/// margin-adjusted boundary it aims for lies within one step length of the
/// runner, so no circle radicand goes negative.
pub open spec fn same_length_reachable_y(area: PlayArea, from: Vec2, stretch: Vec2) -> bool {
    let rx = redirected_x_spec(area, from, stretch);
    &&& sq(from.y - broken_y_bound(area, from, stretch)) <= sqlen(stretch)
    &&& (rx > area.max_x ==> sq(from.x - (area.max_x - EDGE_MARGIN)) <= sqlen(stretch))
    &&& (rx < area.min_x ==> sq(from.x - (area.min_x + EDGE_MARGIN)) <= sqlen(stretch))
}

/// The corner fallback of the Y-bound procedure has room: when it pulls the
/// runner to a margin-adjusted X edge, a full step length fits between the
/// runner and the Y edge it backs toward.
pub open spec fn corner_slack_y(area: PlayArea, from: Vec2, stretch: Vec2) -> bool {
    let rx = redirected_x_spec(area, from, stretch);
    &&& (rx > area.max_x ==> from.y - sqrt_floor(sqlen(stretch)) >= area.min_y)
    &&& (rx < area.min_x ==> from.y + sqrt_floor(sqlen(stretch)) <= area.max_y)
}

/// Hypotheses under which the redirection that `turn_spec` actually takes
/// both keeps the step length and stays inside the area.
pub open spec fn redirect_safe(area: PlayArea, from: Vec2, stretch: Vec2) -> bool {
    &&& margins_fit(area)
    &&& (turn_takes_y(area, from, stretch) ==> same_length_reachable_y(area, from, stretch)
        && corner_slack_y(area, from, stretch))
    &&& (turn_takes_x(area, from, stretch) ==> same_length_reachable_y(
        swap_area(area),
        swap_xy(from),
        swap_xy(stretch),
    ) && corner_slack_y(swap_area(area), swap_xy(from), swap_xy(stretch)))
}

/// `a < b` whenever `a*a` is under a square bound below `b*b`.
proof fn lemma_lt_sqrt(a: int, n: int, b: int)
    by (nonlinear_arith)
    requires
        0 <= a,
        0 <= b,
        a * a <= n,
        n < b * b,
    ensures
        a < b,
{
}

/// Bounds for every quantity the Y-bound redirection computes on in-range
/// inputs: the target point stays a little over three coordinate limits from
/// the origin, so the displacement fits the stretch limit and no fixed-point
/// cast in `redirect_y_spec` truncates.
pub proof fn lemma_redirect_y_ranges(area: PlayArea, from: Vec2, stretch: Vec2)
    requires
        area.wf(),
        area.contains_spec(from),
        vec_in_range(stretch),
    ensures
        ({
            let t = redirect_y_target(area, from, stretch);
            let r = redirect_y_spec(area, from, stretch);
            &&& -3_200_000_000 <= t.0 <= 3_200_000_000
            &&& -3_200_000_000 <= t.1 <= 3_200_000_000
            &&& r.x == t.0 - from.x
            &&& r.y == t.1 - from.y
            &&& stretch_in_limit(r)
            &&& 0 <= sqlen(stretch) <= 2_000_000_000_000_000_000
        }),
{
    let ell = sqlen(stretch);
    lemma_sq_le(stretch.x as int, COORD_LIMIT as int);
    lemma_sq_le(stretch.y as int, COORD_LIMIT as int);
    let by = broken_y_bound(area, from, stretch);
    let dy = from.y - by;
    lemma_sq_le(dy, 2_000_000_100);
    let rad_x = abs_i(sq(dy) - ell);
    assert(rad_x <= 4_100_000_000_000_000_000);
    lemma_sqrt_floor_is(rad_x);
    lemma_lt_sqrt(sqrt_floor(rad_x), rad_x, 2_100_000_000);
    let rx = redirected_x_spec(area, from, stretch);
    if stretch.x < 0 {
        assert(rx == from.x + (-1) * sqrt_floor(rad_x));
        assert(rx == from.x - sqrt_floor(rad_x));
    } else {
        assert(rx == from.x + 1 * sqrt_floor(rad_x));
    }
    assert(-3_200_000_000 <= rx <= 3_200_000_000);
    if rx > area.max_x || rx < area.min_x {
        let lx = if rx > area.max_x {
            area.max_x - EDGE_MARGIN
        } else {
            area.min_x + EDGE_MARGIN
        };
        let dx = from.x - lx;
        lemma_sq_le(dx, 2_000_000_100);
        let rad_y = abs_i(sq(dx) - ell);
        assert(rad_y <= 4_100_000_000_000_000_000);
        lemma_sqrt_floor_is(rad_y);
        lemma_lt_sqrt(sqrt_floor(rad_y), rad_y, 2_100_000_000);
    }
}

/// `sqrt_floor` is monotone on nonnegative arguments.
pub proof fn lemma_sqrt_floor_mono(m: int, n: int)
    requires
        0 <= m <= n,
    ensures
        sqrt_floor(m) <= sqrt_floor(n),
{
    lemma_sqrt_floor_is(m);
    lemma_sqrt_floor_is(n);
    let rm = sqrt_floor(m);
    let rn = sqrt_floor(n);
    if rm > rn {
        lemma_lt_sqrt(rm, m, rn + 1);
    }
}

/// A displacement of (near) maximum speed in the direction of `v`: each
/// component of `v` scaled by `MAX_SPEED / |v|` in fixed point. A zero
/// vector has no direction; it defaults deterministically to angle zero,
/// along the positive X axis.
pub open spec fn scaled_to_max_speed(v: Vec2) -> Vec2 {
    let len = sqrt_floor(sqlen(v));
    if len == 0 {
        Vec2 { x: MAX_SPEED, y: 0 }
    } else {
        Vec2 {
            x: (sign_of(v.x as int) * (abs_i(v.x as int) * MAX_SPEED / len)) as i64,
            y: (sign_of(v.y as int) * (abs_i(v.y as int) * MAX_SPEED / len)) as i64,
        }
    }
}

/// One component of the scaling above: `|c| <= len` forces the scaled
/// magnitude under `MAX_SPEED`.
proof fn lemma_scaled_component(c: int, len: int)
    requires
        0 < len,
        abs_i(c) <= len,
    ensures
        0 <= abs_i(c) * MAX_SPEED / len <= MAX_SPEED,
{
    let a = abs_i(c);
    lemma_mul_inequality(a, len, MAX_SPEED as int);
    lemma_div_is_ordered(a * MAX_SPEED, len * MAX_SPEED, len);
    lemma_div_multiples_vanish(MAX_SPEED as int, len);
    assert(len * MAX_SPEED == MAX_SPEED * len) by (nonlinear_arith);
    assert(a * MAX_SPEED >= 0) by (nonlinear_arith)
        requires
            a >= 0,
    ;
    lemma_div_is_ordered(0, a * MAX_SPEED, len);
}

/// Both components of `scaled_to_max_speed` stay within `MAX_SPEED`.
pub proof fn lemma_scaled_bounds(v: Vec2)
    requires
        diff_in_range(v),
    ensures
        -MAX_SPEED <= scaled_to_max_speed(v).x <= MAX_SPEED,
        -MAX_SPEED <= scaled_to_max_speed(v).y <= MAX_SPEED,
        vec_in_range(scaled_to_max_speed(v)),
{
    let d2 = sqlen(v);
    lemma_sq_le(v.x as int, 2_000_000_000);
    lemma_sq_le(v.y as int, 2_000_000_000);
    lemma_sqrt_floor_is(d2);
    let len = sqrt_floor(d2);
    if len != 0 {
        let ax = abs_i(v.x as int);
        let ay = abs_i(v.y as int);
        assert(ax * ax == (v.x as int) * (v.x as int) && ay * ay == (v.y as int) * (v.y as int))
            by (nonlinear_arith)
            requires
                ax == v.x as int || ax == -(v.x as int),
                ay == v.y as int || ay == -(v.y as int),
        ;
        lemma_lt_sqrt(ax, d2, len + 1);
        lemma_lt_sqrt(ay, d2, len + 1);
        lemma_scaled_component(v.x as int, len);
        lemma_scaled_component(v.y as int, len);
        let qx = ax * MAX_SPEED / len;
        let qy = ay * MAX_SPEED / len;
        if v.x < 0 {
            assert(sign_of(v.x as int) * qx == -1 * qx == -qx);
        } else {
            assert(sign_of(v.x as int) * qx == 1 * qx == qx);
        }
        if v.y < 0 {
            assert(sign_of(v.y as int) * qy == -1 * qy == -qy);
        } else {
            assert(sign_of(v.y as int) * qy == 1 * qy == qy);
        }
    }
}

/// The executable scaling: integer square root of the squared length, then
/// one fixed-point multiply and divide per component.
pub fn stretch_at_max_speed(v: &Vec2) -> (r: Vec2)
    requires
        diff_in_range(*v),
    ensures
        r == scaled_to_max_speed(*v),
        -MAX_SPEED <= r.x <= MAX_SPEED,
        -MAX_SPEED <= r.y <= MAX_SPEED,
{
    proof {
        lemma_scaled_bounds(*v);
        lemma_sq_le(v.x as int, 2_000_000_000);
        lemma_sq_le(v.y as int, 2_000_000_000);
    }
    let d2 = square_length(v);
    let len = isqrt(d2 as u64);
    if len == 0 {
        Vec2 { x: MAX_SPEED, y: 0 }
    } else {
        let ax = if v.x < 0 {
            -v.x
        } else {
            v.x
        };
        let ay = if v.y < 0 {
            -v.y
        } else {
            v.y
        };
        proof {
            assert((ax as int) * (ax as int) == (v.x as int) * (v.x as int) && (ay as int) * (
            ay as int) == (v.y as int) * (v.y as int)) by (nonlinear_arith)
                requires
                    ax as int == v.x as int || ax as int == -(v.x as int),
                    ay as int == v.y as int || ay as int == -(v.y as int),
            ;
            lemma_lt_sqrt(ax as int, d2 as int, len as int + 1);
            lemma_lt_sqrt(ay as int, d2 as int, len as int + 1);
            lemma_scaled_component(v.x as int, len as int);
            lemma_scaled_component(v.y as int, len as int);
        }
        let qx = (ax as u64 * 2000) / len;
        let qy = (ay as u64 * 2000) / len;
        proof {
            assert(qx == abs_i(v.x as int) * MAX_SPEED / (len as int));
            assert(qy == abs_i(v.y as int) * MAX_SPEED / (len as int));
            if v.x < 0 {
                assert(sign_of(v.x as int) * (qx as int) == -1 * qx == -(qx as int));
            } else {
                assert(sign_of(v.x as int) * (qx as int) == 1 * qx == qx as int);
            }
            if v.y < 0 {
                assert(sign_of(v.y as int) * (qy as int) == -1 * qy == -(qy as int));
            } else {
                assert(sign_of(v.y as int) * (qy as int) == 1 * qy == qy as int);
            }
        }
        let rx = if v.x < 0 {
            -(qx as i64)
        } else {
            qx as i64
        };
        let ry = if v.y < 0 {
            -(qy as i64)
        } else {
            qy as i64
        };
        Vec2 { x: rx, y: ry }
    }
}

/// Redirection when the raw target leaves through the top or bottom edge.
pub fn redirect_out_of_y_bounds(from: &Vec2, area: &PlayArea, stretch: &Vec2) -> (r: Vec2)
    requires
        area.wf(),
        area.contains_spec(*from),
        vec_in_range(*stretch),
    ensures
        r == redirect_y_spec(*area, *from, *stretch),
        stretch_in_limit(r),
{
    proof {
        lemma_redirect_y_ranges(*area, *from, *stretch);
    }
    let ell = square_length(stretch);
    let broken_y = if from.y + stretch.y > area.max_y {
        area.max_y - EDGE_MARGIN
    } else {
        area.min_y + EDGE_MARGIN
    };
    let dy = from.y - broken_y;
    proof {
        lemma_sq_le(dy as int, 2_000_000_100);
    }
    let rad_x = dy * dy - ell;
    let rad_x_abs = if rad_x < 0 {
        -rad_x
    } else {
        rad_x
    };
    let x_off = isqrt(rad_x_abs as u64);
    proof {
        lemma_lt_sqrt(x_off as int, rad_x_abs as int, 2_100_000_000);
    }
    let x_off_i = x_off as i64;
    let redirected_x = if stretch.x < 0 {
        from.x - x_off_i
    } else {
        from.x + x_off_i
    };
    let (tx, ty) = if redirected_x > area.max_x {
        let limited_x = area.max_x - EDGE_MARGIN;
        let dx = from.x - limited_x;
        proof {
            lemma_sq_le(dx as int, 2_000_000_100);
        }
        let rad_y = dx * dx - ell;
        let rad_y_abs = if rad_y < 0 {
            -rad_y
        } else {
            rad_y
        };
        let y_off = isqrt(rad_y_abs as u64);
        proof {
            lemma_lt_sqrt(y_off as int, rad_y_abs as int, 2_100_000_000);
        }
        (limited_x, from.y - y_off as i64)
    } else if redirected_x < area.min_x {
        let limited_x = area.min_x + EDGE_MARGIN;
        let dx = from.x - limited_x;
        proof {
            lemma_sq_le(dx as int, 2_000_000_100);
        }
        let rad_y = dx * dx - ell;
        let rad_y_abs = if rad_y < 0 {
            -rad_y
        } else {
            rad_y
        };
        let y_off = isqrt(rad_y_abs as u64);
        proof {
            lemma_lt_sqrt(y_off as int, rad_y_abs as int, 2_100_000_000);
        }
        (limited_x, from.y + y_off as i64)
    } else {
        (redirected_x, broken_y)
    };
    Vec2 { x: tx - from.x, y: ty - from.y }
}

/// Redirection when the raw target leaves through the left or right edge:
/// the rectangle and both vectors are transposed, the Y-bound redirection
/// does the work, and the result is transposed back.
pub fn redirect_out_of_x_bounds(from: &Vec2, area: &PlayArea, stretch: &Vec2) -> (r: Vec2)
    requires
        area.wf(),
        area.contains_spec(*from),
        vec_in_range(*stretch),
    ensures
        r == redirect_x_spec(*area, *from, *stretch),
        stretch_in_limit(r),
{
    let swapped_from = Vec2 { x: from.y, y: from.x };
    let swapped_area = PlayArea {
        min_x: area.min_y,
        min_y: area.min_x,
        max_x: area.max_y,
        max_y: area.max_x,
    };
    let swapped_stretch = Vec2 { x: stretch.y, y: stretch.x };
    let redirected = redirect_out_of_y_bounds(&swapped_from, &swapped_area, &swapped_stretch);
    Vec2 { x: redirected.y, y: redirected.x }
}

/// Keeps the player running at full speed by turning it along the edge of
/// the play area: the raw displacement when it stays inside, otherwise the
/// redirection for the crossed axis (the larger raw component first when
/// both are crossed).
pub fn turn_at_edges(area: &PlayArea, from: &Vec2, stretch: &Vec2) -> (r: Vec2)
    requires
        area.wf(),
        area.contains_spec(*from),
        vec_in_range(*stretch),
    ensures
        r == turn_spec(*area, *from, *stretch),
        stretch_in_limit(r),
{
    let target_x = from.x + stretch.x;
    let target_y = from.y + stretch.y;
    let x_in_bounds = area.min_x <= target_x && target_x <= area.max_x;
    let y_in_bounds = area.min_y <= target_y && target_y <= area.max_y;
    if x_in_bounds && y_in_bounds {
        *stretch
    } else if !x_in_bounds && !y_in_bounds {
        if stretch.x > stretch.y {
            redirect_out_of_x_bounds(from, area, stretch)
        } else {
            redirect_out_of_y_bounds(from, area, stretch)
        }
    } else if !y_in_bounds {
        redirect_out_of_y_bounds(from, area, stretch)
    } else {
        redirect_out_of_x_bounds(from, area, stretch)
    }
}

proof fn lemma_neg_sq(a: int)
    by (nonlinear_arith)
    ensures
        (-a) * (-a) == a * a,
{
}

/// Speed preservation of the Y-bound redirection: when every boundary it
/// aims for is within one step length, the redirected displacement keeps
/// the squared step length up to the fixed-point rounding of one square
/// root (`2 * sqrt_floor` of the squared length).
pub proof fn lemma_redirect_y_speed(area: PlayArea, from: Vec2, stretch: Vec2)
    requires
        area.wf(),
        area.contains_spec(from),
        vec_in_range(stretch),
        same_length_reachable_y(area, from, stretch),
    ensures
        sqlen(redirect_y_spec(area, from, stretch)) <= sqlen(stretch),
        sqlen(stretch) - 2 * sqrt_floor(sqlen(stretch)) <= sqlen(
            redirect_y_spec(area, from, stretch),
        ),
{
    lemma_redirect_y_ranges(area, from, stretch);
    let ell = sqlen(stretch);
    let r = redirect_y_spec(area, from, stretch);
    let by = broken_y_bound(area, from, stretch);
    let dy = from.y - by;
    let rad_x = abs_i(sq(dy) - ell);
    assert(sq(dy) >= 0) by {
        lemma_neg_sq(dy);
    }
    assert(rad_x == ell - sq(dy));
    lemma_sqrt_floor_is(rad_x);
    lemma_sqrt_floor_mono(rad_x, ell);
    let x_off = sqrt_floor(rad_x);
    let rx = redirected_x_spec(area, from, stretch);
    if rx > area.max_x || rx < area.min_x {
        let lx = if rx > area.max_x {
            area.max_x - EDGE_MARGIN
        } else {
            area.min_x + EDGE_MARGIN
        };
        let dx = from.x - lx;
        let rad_y = abs_i(sq(dx) - ell);
        assert(sq(dx) >= 0) by {
            lemma_neg_sq(dx);
        }
        assert(rad_y == ell - sq(dx));
        lemma_sqrt_floor_is(rad_y);
        lemma_sqrt_floor_mono(rad_y, ell);
        let y_off = sqrt_floor(rad_y);
        assert(r.x == -dx);
        lemma_neg_sq(dx);
        assert(r.y == -y_off || r.y == y_off);
        lemma_neg_sq(y_off);
        assert(sqlen(r) == sq(dx) + y_off * y_off);
        assert(y_off * y_off <= ell - sq(dx));
        assert(ell - sq(dx) < (y_off + 1) * (y_off + 1));
        assert((y_off + 1) * (y_off + 1) == y_off * y_off + 2 * y_off + 1) by (nonlinear_arith);
    } else {
        if stretch.x < 0 {
            assert(rx == from.x + (-1) * x_off);
            assert(r.x == -x_off);
        } else {
            assert(rx == from.x + 1 * x_off);
            assert(r.x == x_off);
        }
        lemma_neg_sq(x_off);
        lemma_neg_sq(dy);
        assert(r.y == -dy);
        assert(sqlen(r) == x_off * x_off + sq(dy));
        assert(x_off * x_off <= ell - sq(dy));
        assert(ell - sq(dy) < (x_off + 1) * (x_off + 1));
        assert((x_off + 1) * (x_off + 1) == x_off * x_off + 2 * x_off + 1) by (nonlinear_arith);
    }
}

/// Containment of the Y-bound redirection: with ordered margins, reachable
/// boundaries and room for the corner fallback, the redirected target lies
/// within the area, edges included.
pub proof fn lemma_redirect_y_contains(area: PlayArea, from: Vec2, stretch: Vec2)
    requires
        area.wf(),
        area.contains_spec(from),
        vec_in_range(stretch),
        margins_fit(area),
        same_length_reachable_y(area, from, stretch),
        corner_slack_y(area, from, stretch),
    ensures
        area.contains_spec(pos_plus(from, redirect_y_spec(area, from, stretch))),
{
    lemma_redirect_y_ranges(area, from, stretch);
    let ell = sqlen(stretch);
    let by = broken_y_bound(area, from, stretch);
    let dy = from.y - by;
    assert(sq(dy) >= 0) by {
        lemma_neg_sq(dy);
    }
    lemma_sqrt_floor_mono(abs_i(sq(dy) - ell), ell);
    lemma_sqrt_floor_is(abs_i(sq(dy) - ell));
    lemma_sqrt_floor_is(ell);
    let rx = redirected_x_spec(area, from, stretch);
    if rx > area.max_x || rx < area.min_x {
        let lx = if rx > area.max_x {
            area.max_x - EDGE_MARGIN
        } else {
            area.min_x + EDGE_MARGIN
        };
        let dx = from.x - lx;
        assert(sq(dx) >= 0) by {
            lemma_neg_sq(dx);
        }
        lemma_sqrt_floor_is(abs_i(sq(dx) - ell));
        lemma_sqrt_floor_mono(abs_i(sq(dx) - ell), ell);
    }
}

/// The displacement `turn_spec` returns never exceeds the stretch limit on
/// in-range inputs.
pub proof fn lemma_turn_spec_limit(area: PlayArea, from: Vec2, stretch: Vec2)
    requires
        area.wf(),
        area.contains_spec(from),
        vec_in_range(stretch),
    ensures
        stretch_in_limit(turn_spec(area, from, stretch)),
{
    lemma_redirect_y_ranges(area, from, stretch);
    lemma_redirect_y_ranges(swap_area(area), swap_xy(from), swap_xy(stretch));
}

/// No-op fast path: a displacement whose raw target already lies within the
/// area comes back unchanged.
pub proof fn lemma_turn_noop(area: PlayArea, from: Vec2, stretch: Vec2)
    requires
        raw_target_x_in(area, from, stretch),
        raw_target_y_in(area, from, stretch),
    ensures
        turn_spec(area, from, stretch) == stretch,
{
}

/// Speed preservation for the whole redirection: wherever a same-length
/// redirection exists (`redirect_safe`), the returned displacement keeps
/// the squared step length up to the rounding of one fixed-point square
/// root, and exactly on the fast path.
pub proof fn lemma_turn_preserves_speed(area: PlayArea, from: Vec2, stretch: Vec2)
    requires
        area.wf(),
        area.contains_spec(from),
        vec_in_range(stretch),
        redirect_safe(area, from, stretch),
    ensures
        sqlen(turn_spec(area, from, stretch)) <= sqlen(stretch),
        sqlen(stretch) - 2 * sqrt_floor(sqlen(stretch)) <= sqlen(turn_spec(area, from, stretch)),
{
    let sa = swap_area(area);
    let sf = swap_xy(from);
    let ss = swap_xy(stretch);
    if raw_target_x_in(area, from, stretch) && raw_target_y_in(area, from, stretch) {
        lemma_sq_le(stretch.x as int, COORD_LIMIT as int);
        lemma_sq_le(stretch.y as int, COORD_LIMIT as int);
        lemma_sqrt_floor_is(sqlen(stretch));
    } else if turn_takes_y(area, from, stretch) {
        lemma_redirect_y_speed(area, from, stretch);
    } else {
        lemma_redirect_y_speed(sa, sf, ss);
        assert(sqlen(ss) == sqlen(stretch));
        assert(sqlen(swap_xy(redirect_y_spec(sa, sf, ss))) == sqlen(redirect_y_spec(sa, sf, ss)));
    }
}

/// Containment for the whole redirection: under `redirect_safe`, the
/// runner's position plus the returned displacement lies within the area,
/// edges included.
pub proof fn lemma_turn_stays_inside(area: PlayArea, from: Vec2, stretch: Vec2)
    requires
        area.wf(),
        area.contains_spec(from),
        vec_in_range(stretch),
        redirect_safe(area, from, stretch),
    ensures
        area.contains_spec(pos_plus(from, turn_spec(area, from, stretch))),
{
    let sa = swap_area(area);
    let sf = swap_xy(from);
    let ss = swap_xy(stretch);
    if raw_target_x_in(area, from, stretch) && raw_target_y_in(area, from, stretch) {
    } else if turn_takes_y(area, from, stretch) {
        lemma_redirect_y_contains(area, from, stretch);
    } else {
        lemma_redirect_y_contains(sa, sf, ss);
        lemma_redirect_y_ranges(sa, sf, ss);
        let ry = redirect_y_spec(sa, sf, ss);
        assert(sa.contains_spec(pos_plus(sf, ry)));
        assert(pos_plus(from, swap_xy(ry)).x == pos_plus(sf, ry).y);
        assert(pos_plus(from, swap_xy(ry)).y == pos_plus(sf, ry).x);
    }
}

/// Logic for the player agent; it carries no state of its own.
#[derive(Clone, Copy, Debug)]
pub struct TagPlayerAgent;

/// The action `act` chooses for player `pid`, as a mathematical function of
/// the environment.
///
/// An it player tags the nearest player when it is within arm's length and
/// pursues it at maximum speed otherwise; every other player flees the
/// first it player at maximum speed, boundary-redirected so it stays
/// within the play area. The query for the nearest player fails exactly
/// when no other player exists.
pub open spec fn decision(env: TagEnvironment, pid: int) -> Result<TagPlayerAction, TagError> {
    let states = env.states();
    let me = states[pid];
    if me.spec_is_it() {
        match closest_spec(states, pid, None) {
            None => Err(TagError::NotEnoughPlayers),
            Some(p) => if p.1 < ARM_LENGTH * ARM_LENGTH {
                Ok(TagPlayerAction::Tag { player_id: p.0 as usize })
            } else {
                Ok(
                    TagPlayerAction::Run {
                        stretch: scaled_to_max_speed(vec_minus(states[p.0].position, me.position)),
                    },
                )
            },
        }
    } else {
        let it = first_it(states);
        let direction = scaled_to_max_speed(vec_minus(me.position, states[it].position));
        Ok(TagPlayerAction::Run { stretch: turn_spec(env.spec_area(), me.position, direction) })
    }
}

impl TagPlayerAgent {
    /// Decide what action to take on this step based on looking at the
    /// environment.
    pub fn act(&mut self, player_id: PlayerId, environment: &TagEnvironment) -> (r: Result<
        TagPlayerAction,
        TagError,
    >)
        requires
            environment.wf(),
            player_id < environment.states().len(),
            has_it(environment.states()),
        ensures
            r == decision(*environment, player_id as int),
    {
        let state = environment.get_state(player_id);
        let position = state.position;
        let status = state.status;
        if status.is_it() {
            match environment.closest_player_except(player_id, None) {
                Err(e) => Err(e),
                Ok(p) => {
                    if p.1 < ARM_LENGTH * ARM_LENGTH {
                        Ok(TagPlayerAction::Tag { player_id: p.0 })
                    } else {
                        let other = environment.get_state(p.0).position;
                        let vector = Vec2 { x: other.x - position.x, y: other.y - position.y };
                        Ok(TagPlayerAction::Run { stretch: stretch_at_max_speed(&vector) })
                    }
                },
            }
        } else {
            proof {
                lemma_first_it(environment.states());
            }
            let it_id = match environment.get_it() {
                Some(i) => i,
                None => {
                    proof {
                        assert(false);
                    }
                    0
                },
            };
            let it_position = environment.get_state(it_id).position;
            let vector = Vec2 { x: position.x - it_position.x, y: position.y - it_position.y };
            let direction = stretch_at_max_speed(&vector);
            let area = environment.area();
            let stretch = turn_at_edges(&area, &position, &direction);
            Ok(TagPlayerAction::Run { stretch })
        }
    }
}

} // verus!

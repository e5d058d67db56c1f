//! Affine approximation mapping an on-screen bounding box to a
//! minimap-relative position.
//!
//! The horizontal input is the box centre's signed offset from the
//! middle of the screen, the vertical input the box bottom's offset
//! from the bottom of the screen. A fixed, empirically tuned linear
//! transform turns them into a minimap-space delta, the delta is added
//! to the player's minimap position (toward the side of the screen the
//! box is on), and the result is flipped against the minimap height.
//! A result outside the playable bound is discarded, not returned
//! out of bounds.
//!
//! The transform coefficients are exact rationals in parts per
//! billion; products are rounded to the nearest pixel, halves up.

use vstd::prelude::*;

use crate::geometry::{Point, Rect};

verus! {

/// Horizontal coefficient (`0.065789476`), parts per billion.
pub const TRANSFORM_X_PPB: i64 = 65_789_476;

/// Vertical coefficient (`0.072635140`), parts per billion.
pub const TRANSFORM_Y_PPB: i64 = 72_635_140;

/// Fixed bias subtracted from the vertical delta, in pixels.
pub const TRANSFORM_Y_BIAS: i64 = 20;

/// Horizontal minimap delta for twice the signed centre offset `tx`
/// (kept doubled so the half-pixel of an odd screen width is exact).
pub open spec fn spec_delta_x(tx: int) -> int {
    let m = if tx >= 0 {
        tx
    } else {
        -tx
    };
    (m * TRANSFORM_X_PPB + 1_000_000_000) / 2_000_000_000
}

/// Vertical minimap delta for a bottom offset `vy`.
pub open spec fn spec_delta_y(vy: int) -> int {
    (vy * TRANSFORM_Y_PPB + 500_000_000) / 1_000_000_000 - TRANSFORM_Y_BIAS
}

/// Where the transform lands before the bound check.
pub open spec fn spec_transformed(
    bbox: Rect,
    minimap: Rect,
    player: Point,
    screen_width: int,
    screen_height: int,
) -> (int, int) {
    let centre = bbox.x + bbox.width / 2;
    let tx = screen_width - 2 * centre;
    let dx = spec_delta_x(tx);
    let x = if tx > 0 {
        player.x - dx
    } else {
        player.x + dx
    };
    let vy = screen_height - bbox.bottom();
    let y = minimap.height - (player.y + spec_delta_y(vy));
    (x, y)
}

/// The playable-bound acceptance test: non-negative and inside
/// `bound`, where a point exactly on the boundary is accepted.
pub open spec fn spec_in_bound(x: int, y: int, bound: Rect) -> bool {
    &&& x >= 0
    &&& y >= 0
    &&& bound.x <= x <= bound.right()
    &&& bound.y <= y <= bound.bottom()
}

/// Map an on-screen box to the minimap position it stands for, or
/// `None` when the result falls outside the playable bound.
pub fn to_minimap_coordinate(
    bbox: Rect,
    minimap: Rect,
    bound: Rect,
    player: Point,
    screen_width: i32,
    screen_height: i32,
) -> (r: Option<Point>)
    requires
        bbox.wf(),
        minimap.wf(),
        bound.wf(),
        0 < screen_width <= 1_000_000,
        0 < screen_height <= 1_000_000,
        bbox.right() <= screen_width,
        bbox.bottom() <= screen_height,
        minimap.height <= 1_000_000,
        -1_000_000 <= player.x <= 1_000_000,
        -1_000_000 <= player.y <= 1_000_000,
    ensures
        ({
            let (x, y) = spec_transformed(
                bbox,
                minimap,
                player,
                screen_width as int,
                screen_height as int,
            );
            if spec_in_bound(x, y, bound) {
                r == Some(Point { x: x as i32, y: y as i32 })
            } else {
                r is None
            }
        }),
{
    let centre: i64 = bbox.x as i64 + (bbox.width / 2) as i64;
    let tx: i64 = screen_width as i64 - 2 * centre;
    let m: i64 = if tx >= 0 {
        tx
    } else {
        -tx
    };
    proof {
        vstd::arithmetic::mul::lemma_mul_nonnegative(m as int, TRANSFORM_X_PPB as int);
        vstd::arithmetic::mul::lemma_mul_upper_bound(
            m as int,
            3_000_000,
            TRANSFORM_X_PPB as int,
            66_000_000,
        );
    }
    let dx: i64 = (m * TRANSFORM_X_PPB + 1_000_000_000) / 2_000_000_000;
    let x: i64 = if tx > 0 {
        player.x as i64 - dx
    } else {
        player.x as i64 + dx
    };
    let vy: i64 = screen_height as i64 - (bbox.y as i64 + bbox.height as i64);
    proof {
        vstd::arithmetic::mul::lemma_mul_nonnegative(vy as int, TRANSFORM_Y_PPB as int);
        vstd::arithmetic::mul::lemma_mul_upper_bound(
            vy as int,
            1_000_000,
            TRANSFORM_Y_PPB as int,
            73_000_000,
        );
    }
    let dy: i64 = (vy * TRANSFORM_Y_PPB + 500_000_000) / 1_000_000_000 - TRANSFORM_Y_BIAS;
    let y: i64 = minimap.height as i64 - (player.y as i64 + dy);
    if x < 0 || y < 0 || x < bound.x as i64 || x > bound.x as i64 + bound.width as i64 || y
        < bound.y as i64 || y > bound.y as i64 + bound.height as i64 {
        None
    } else {
        Some(Point { x: x as i32, y: y as i32 })
    }
}

/// Transform boundary law: a result exactly on the playable bound's
/// edge is accepted, and a result one pixel outside, on any side, is
/// discarded.
pub proof fn lemma_transform_boundary(bound: Rect, x: int, y: int)
    requires
        bound.wf(),
    ensures
        bound.x <= x <= bound.right() && bound.y <= y <= bound.bottom() && x >= 0 && y >= 0
            ==> spec_in_bound(x, y, bound),
        x == bound.x - 1 || x == bound.right() + 1 ==> !spec_in_bound(x, y, bound),
        y == bound.y - 1 || y == bound.bottom() + 1 ==> !spec_in_bound(x, y, bound),
{
}

} // verus!

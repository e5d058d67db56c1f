//! The fact detectors: fixed compositions of the matcher, the decoder
//! and the transform, with each capability's crop regions and
//! thresholds.

use vstd::prelude::*;

use crate::calibration::{spec_after_attempt, CalibrationFlag, CalibrationVariant};
use crate::decode::{remap_detection, spec_remap_rect, RawDetection, CONFIDENCE_FLOOR};
use crate::error::DetectError;
use crate::geometry::{Point, Rect};
use crate::template::{best_match, spec_single_match, ScoreMap};
use crate::transform::{spec_in_bound, spec_transformed, to_minimap_coordinate};

verus! {

/// Threshold for the escape-menu templates (`0.85`).
pub const ESC_SCORE_FLOOR: i32 = 8500;

/// Threshold for the elite boss bar templates (`0.9`).
pub const ELITE_BOSS_SCORE_FLOOR: i32 = 9000;

/// Threshold for the tomb template (`0.8`).
pub const TOMB_SCORE_FLOOR: i32 = 8000;

/// Threshold for the cash-shop template (`0.7`).
pub const CASH_SHOP_SCORE_FLOOR: i32 = 7000;

/// Threshold for the minimap rune template (`0.6`).
pub const RUNE_SCORE_FLOOR: i32 = 6000;

/// Threshold for the Erda Shower skill template (`0.96`).
pub const ERDA_SCORE_FLOOR: i32 = 9600;

/// Threshold for the portal template on the minimap (`0.8`).
pub const PORTAL_SCORE_FLOOR: i32 = 8000;

/// Threshold for the player template at the default scale (`0.6`).
pub const PLAYER_DEFAULT_SCORE_FLOOR: i32 = 6000;

/// Threshold for the player template at the ideal scale (`0.75`).
pub const PLAYER_IDEAL_SCORE_FLOOR: i32 = 7500;

/// The top-right crop that holds the buff tray: the right third of
/// the frame's width, the top quarter of its height.
pub fn buffs_region(width: i32, height: i32) -> (r: Rect)
    requires
        0 < width <= 1_000_000,
        0 < height <= 1_000_000,
    ensures
        r.x == width - width / 3,
        r.y == 0,
        r.width == width / 3,
        r.height == height / 4,
        r.wf(),
{
    let crop_x = width / 3;
    let crop_y = height / 4;
    Rect { x: width - crop_x, y: 0, width: crop_x, height: crop_y }
}

/// The top strip that can hold an elite boss bar: the frame's full
/// width, the top fifth of its height.
pub fn elite_boss_region(width: i32, height: i32) -> (r: Rect)
    requires
        0 < width <= 1_000_000,
        0 < height <= 1_000_000,
    ensures
        r.x == 0,
        r.y == 0,
        r.width == width,
        r.height == height / 5,
        r.wf(),
{
    Rect { x: 0, y: 0, width, height: height / 5 }
}

/// The bottom-right crop that holds the skill bar: the right half of
/// the frame's width, the bottom fifth of its height.
pub fn erda_shower_region(width: i32, height: i32) -> (r: Rect)
    requires
        0 < width <= 1_000_000,
        0 < height <= 1_000_000,
    ensures
        r.x == width - width / 2,
        r.y == height - height / 5,
        r.width == width / 2,
        r.height == height / 5,
        r.wf(),
{
    let crop_x = width / 2;
    let crop_y = height / 5;
    Rect { x: width - crop_x, y: height - crop_y, width: crop_x, height: crop_y }
}

/// Whether any of the escape-menu templates matched its score map at
/// the escape threshold: pressing escape would close something.
pub fn detect_esc_settings(maps: &Vec<ScoreMap>) -> (r: bool)
    requires
        forall|i: int| 0 <= i < maps@.len() ==> (#[trigger] maps@[i]).wf(),
    ensures
        r == exists|i: int, px: int, py: int|
            0 <= i < maps@.len() && #[trigger] maps@[i].is_first_peak(px, py) && maps@[i].val(
                px,
                py,
            ) >= ESC_SCORE_FLOOR,
{
    let mut i: usize = 0;
    while i < maps.len()
        invariant
            forall|j: int| 0 <= j < maps@.len() ==> (#[trigger] maps@[j]).wf(),
            i <= maps@.len(),
            forall|j: int, px: int, py: int|
                0 <= j < i && #[trigger] maps@[j].is_first_peak(px, py) ==> maps@[j].val(px, py)
                    < ESC_SCORE_FLOOR,
        decreases maps@.len() - i,
    {
        let outcome = best_match(&maps[i], 1, 1, Point { x: 0, y: 0 }, ESC_SCORE_FLOOR);
        if outcome.is_ok() {
            return true;
        }
        i += 1;
    }
    false
}

/// Whether an elite boss bar is on screen: either bar template
/// matched the top strip at the boss threshold.
pub fn detect_elite_boss_bar(map_1: &ScoreMap, map_2: &ScoreMap) -> (r: bool)
    requires
        map_1.wf(),
        map_2.wf(),
    ensures
        r == exists|px: int, py: int, qx: int, qy: int|
            #[trigger] map_1.is_first_peak(px, py) && #[trigger] map_2.is_first_peak(qx, qy) && (
            map_1.val(px, py) >= ELITE_BOSS_SCORE_FLOOR || map_2.val(qx, qy)
                >= ELITE_BOSS_SCORE_FLOOR),
{
    let first = best_match(map_1, 1, 1, Point { x: 0, y: 0 }, ELITE_BOSS_SCORE_FLOOR);
    let second = best_match(map_2, 1, 1, Point { x: 0, y: 0 }, ELITE_BOSS_SCORE_FLOOR);
    first.is_ok() || second.is_ok()
}

/// Whether the player is dead: the tomb template matched.
pub fn detect_player_is_dead(map: &ScoreMap) -> (r: bool)
    requires
        map.wf(),
    ensures
        r == exists|px: int, py: int|
            #[trigger] map.is_first_peak(px, py) && map.val(px, py) >= TOMB_SCORE_FLOOR,
{
    best_match(map, 1, 1, Point { x: 0, y: 0 }, TOMB_SCORE_FLOOR).is_ok()
}

/// Whether the player is in the cash shop: its template matched.
pub fn detect_player_in_cash_shop(map: &ScoreMap) -> (r: bool)
    requires
        map.wf(),
    ensures
        r == exists|px: int, py: int|
            #[trigger] map.is_first_peak(px, py) && map.val(px, py) >= CASH_SHOP_SCORE_FLOOR,
{
    best_match(map, 1, 1, Point { x: 0, y: 0 }, CASH_SHOP_SCORE_FLOOR).is_ok()
}

/// The rune on the minimap: a single match of the rune template at
/// the rune threshold, in minimap coordinates.
pub fn detect_minimap_rune(map: &ScoreMap, template_width: i32, template_height: i32) -> (r:
    Result<(Rect, i32), DetectError>)
    requires
        map.wf(),
        0 < template_width <= 1_000_000,
        0 < template_height <= 1_000_000,
    ensures
        spec_single_match(
            *map,
            template_width,
            template_height,
            Point { x: 0, y: 0 },
            RUNE_SCORE_FLOOR,
            r,
        ),
{
    best_match(map, template_width, template_height, Point { x: 0, y: 0 }, RUNE_SCORE_FLOOR)
}

/// The Erda Shower skill icon: a single match inside the skill-bar
/// crop, translated back to frame coordinates by the crop's corner.
pub fn detect_erda_shower(
    map: &ScoreMap,
    crop: &Rect,
    template_width: i32,
    template_height: i32,
) -> (r: Result<(Rect, i32), DetectError>)
    requires
        map.wf(),
        crop.wf(),
        crop.right() <= 1_000_000,
        crop.bottom() <= 1_000_000,
        0 < template_width <= 1_000_000,
        0 < template_height <= 1_000_000,
    ensures
        spec_single_match(
            *map,
            template_width,
            template_height,
            Point { x: crop.x, y: crop.y },
            ERDA_SCORE_FLOOR,
            r,
        ),
{
    best_match(
        map,
        template_width,
        template_height,
        Point { x: crop.x, y: crop.y },
        ERDA_SCORE_FLOOR,
    )
}

/// The threshold the player template is held to under a calibration
/// variant: the default scale's or the ideal scale's.
pub open spec fn spec_player_threshold(v: CalibrationVariant) -> int {
    if v == CalibrationVariant::VariantA {
        PLAYER_DEFAULT_SCORE_FLOOR as int
    } else {
        PLAYER_IDEAL_SCORE_FLOOR as int
    }
}

/// Detect the player on the minimap under the currently selected
/// calibration variant; a failed attempt flips the flag, so the next
/// call deterministically tries the other template and threshold.
pub fn detect_player(
    flag: &mut CalibrationFlag,
    map: &ScoreMap,
    template_width: i32,
    template_height: i32,
) -> (r: Result<(Rect, i32), DetectError>)
    requires
        map.wf(),
        0 < template_width <= 1_000_000,
        0 < template_height <= 1_000_000,
    ensures
        spec_single_match(
            *map,
            template_width,
            template_height,
            Point { x: 0, y: 0 },
            spec_player_threshold(old(flag).spec_current()) as i32,
            r,
        ),
        final(flag).spec_current() == spec_after_attempt(old(flag).spec_current(), r is Ok),
{
    let threshold: i32 = match flag.current() {
        CalibrationVariant::VariantA => PLAYER_DEFAULT_SCORE_FLOOR,
        CalibrationVariant::VariantB => PLAYER_IDEAL_SCORE_FLOOR,
    };
    let outcome = best_match(map, template_width, template_height, Point { x: 0, y: 0 }, threshold);
    flag.record_attempt(outcome.is_ok());
    outcome
}

/// Where a mob candidate lands on the minimap, if it lands inside the
/// playable bound.
pub open spec fn spec_mob_point(
    d: RawDetection,
    minimap: Rect,
    bound: Rect,
    player: Point,
    screen_width: int,
    screen_height: int,
    w_num: int,
    w_den: int,
    h_num: int,
    h_den: int,
) -> Option<Point> {
    let bbox = spec_remap_rect(d, screen_width, screen_height, w_num, w_den, h_num, h_den);
    let (x, y) = spec_transformed(bbox, minimap, player, screen_width, screen_height);
    if spec_in_bound(x, y, bound) {
        Some(Point { x: x as i32, y: y as i32 })
    } else {
        None
    }
}

/// The mob positions the detector must return: each row clearing the
/// confidence floor, remapped and transformed, keeping those inside
/// the playable bound, in input order.
pub open spec fn spec_mob_points(
    s: Seq<RawDetection>,
    minimap: Rect,
    bound: Rect,
    player: Point,
    screen_width: int,
    screen_height: int,
    w_num: int,
    w_den: int,
    h_num: int,
    h_den: int,
) -> Seq<Point>
    decreases s.len(),
{
    if s.len() == 0 {
        Seq::empty()
    } else {
        let rest = spec_mob_points(
            s.drop_last(),
            minimap,
            bound,
            player,
            screen_width,
            screen_height,
            w_num,
            w_den,
            h_num,
            h_den,
        );
        if s.last().confidence >= CONFIDENCE_FLOOR {
            match spec_mob_point(
                s.last(),
                minimap,
                bound,
                player,
                screen_width,
                screen_height,
                w_num,
                w_den,
                h_num,
                h_den,
            ) {
                Some(p) => rest.push(p),
                None => rest,
            }
        } else {
            rest
        }
    }
}

/// Detect mobs: decode the confident rows, remap each to frame
/// coordinates, transform each to a minimap position and keep the
/// positions that land inside the playable bound.
pub fn detect_mobs(
    dets: &Vec<RawDetection>,
    minimap: Rect,
    bound: Rect,
    player: Point,
    screen_width: i32,
    screen_height: i32,
    w_num: i32,
    w_den: i32,
    h_num: i32,
    h_den: i32,
) -> (r: Vec<Point>)
    requires
        forall|i: int| 0 <= i < dets@.len() ==> (#[trigger] dets@[i]).wf(),
        minimap.wf(),
        bound.wf(),
        0 < screen_width <= 1_000_000,
        0 < screen_height <= 1_000_000,
        minimap.height <= 1_000_000,
        -1_000_000 <= player.x <= 1_000_000,
        -1_000_000 <= player.y <= 1_000_000,
        0 <= w_num <= 1_000_000,
        0 < w_den <= 1_000_000,
        0 <= h_num <= 1_000_000,
        0 < h_den <= 1_000_000,
    ensures
        r@ == spec_mob_points(
            dets@,
            minimap,
            bound,
            player,
            screen_width as int,
            screen_height as int,
            w_num as int,
            w_den as int,
            h_num as int,
            h_den as int,
        ),
{
    let mut out: Vec<Point> = Vec::new();
    let mut i: usize = 0;
    while i < dets.len()
        invariant
            forall|j: int| 0 <= j < dets@.len() ==> (#[trigger] dets@[j]).wf(),
            minimap.wf(),
            bound.wf(),
            0 < screen_width <= 1_000_000,
            0 < screen_height <= 1_000_000,
            minimap.height <= 1_000_000,
            -1_000_000 <= player.x <= 1_000_000,
            -1_000_000 <= player.y <= 1_000_000,
            0 <= w_num <= 1_000_000,
            0 < w_den <= 1_000_000,
            0 <= h_num <= 1_000_000,
            0 < h_den <= 1_000_000,
            i <= dets@.len(),
            out@ == spec_mob_points(
                dets@.take(i as int),
                minimap,
                bound,
                player,
                screen_width as int,
                screen_height as int,
                w_num as int,
                w_den as int,
                h_num as int,
                h_den as int,
            ),
        decreases dets@.len() - i,
    {
        proof {
            assert(dets@.take(i + 1).drop_last() == dets@.take(i as int));
            assert(dets@.take(i + 1).last() == dets@[i as int]);
        }
        if dets[i].confidence >= CONFIDENCE_FLOOR {
            let bbox = remap_detection(
                &dets[i],
                screen_width,
                screen_height,
                w_num,
                w_den,
                h_num,
                h_den,
            );
            match to_minimap_coordinate(bbox, minimap, bound, player, screen_width, screen_height) {
                Some(p) => {
                    out.push(p);
                },
                None => {
                },
            }
        }
        i += 1;
    }
    proof {
        assert(dets@.take(dets@.len() as int) == dets@);
    }
    out
}

/// The portal rectangle reported for a score-map hit at `(x, y)`: the
/// hit grown by five pixels toward the top-left (stopped at the
/// edges), the template's size, and the remainder of the growth added
/// back on the far sides.
pub open spec fn spec_portal_rect(x: int, y: int, template_width: int, template_height: int) -> Rect {
    let px = if x - 5 >= 0 {
        x - 5
    } else {
        0
    };
    let xd = x - px;
    let py = if y - 5 >= 0 {
        y - 5
    } else {
        0
    };
    let yd = y - py;
    Rect {
        x: px as i32,
        y: py as i32,
        width: (template_width + xd * 2 + (5 - xd)) as i32,
        height: (template_height + yd * 2 + (5 - yd)) as i32,
    }
}

/// The portal rectangles for the first `n` cells of the score map in
/// row-major order: one per cell at or above the portal threshold.
pub open spec fn spec_portal_rects(
    map: ScoreMap,
    n: int,
    template_width: int,
    template_height: int,
) -> Seq<Rect>
    decreases n,
{
    if n <= 0 {
        Seq::empty()
    } else {
        let prev = spec_portal_rects(map, n - 1, template_width, template_height);
        if map.cells()[n - 1] >= PORTAL_SCORE_FLOOR {
            prev.push(
                spec_portal_rect(
                    (n - 1) % map.spec_width(),
                    (n - 1) / map.spec_width(),
                    template_width,
                    template_height,
                ),
            )
        } else {
            prev
        }
    }
}

/// Detect the portals on the minimap: every placement whose
/// correlation clears the portal threshold yields one rectangle, in
/// row-major scan order.
pub fn detect_minimap_portals(map: &ScoreMap, template_width: i32, template_height: i32) -> (r:
    Vec<Rect>)
    requires
        map.wf(),
        0 < template_width <= 1_000_000,
        0 < template_height <= 1_000_000,
    ensures
        r@ == spec_portal_rects(
            *map,
            map.spec_width() * map.spec_height(),
            template_width as int,
            template_height as int,
        ),
{
    let w = map.width();
    let h = map.height();
    let mut out: Vec<Rect> = Vec::new();
    let mut y: usize = 0;
    while y < h
        invariant
            map.wf(),
            w == map.spec_width(),
            h == map.spec_height(),
            0 < template_width <= 1_000_000,
            0 < template_height <= 1_000_000,
            y <= h,
            out@ == spec_portal_rects(
                *map,
                y * w,
                template_width as int,
                template_height as int,
            ),
        decreases h - y,
    {
        let mut x: usize = 0;
        while x < w
            invariant
                map.wf(),
                w == map.spec_width(),
                h == map.spec_height(),
                0 < template_width <= 1_000_000,
                0 < template_height <= 1_000_000,
                y < h,
                x <= w,
                out@ == spec_portal_rects(
                    *map,
                    y * w + x,
                    template_width as int,
                    template_height as int,
                ),
            decreases w - x,
        {
            proof {
                let idx = y as int * w + x;
                vstd::arithmetic::mul::lemma_mul_nonnegative(y as int, w as int);
                vstd::arithmetic::div_mod::lemma_fundamental_div_mod_converse(
                    idx,
                    w as int,
                    y as int,
                    x as int,
                );
                assert(idx % (w as int) == x as int);
                assert(idx / (w as int) == y as int);
            }
            let score = map.at(x, y);
            if score >= PORTAL_SCORE_FLOOR {
                let px = if x as i32 - 5 >= 0 {
                    x as i32 - 5
                } else {
                    0
                };
                let xd = x as i32 - px;
                let py = if y as i32 - 5 >= 0 {
                    y as i32 - 5
                } else {
                    0
                };
                let yd = y as i32 - py;
                out.push(
                    Rect {
                        x: px,
                        y: py,
                        width: template_width + xd * 2 + (5 - xd),
                        height: template_height + yd * 2 + (5 - yd),
                    },
                );
            }
            x += 1;
        }
        proof {
            assert((y + 1) * w == y * w + w) by (nonlinear_arith);
        }
        y += 1;
    }
    proof {
        vstd::arithmetic::mul::lemma_mul_is_commutative(h as int, w as int);
    }
    out
}

} // verus!

//! Status-effect detection: the closed set of buff kinds, each bound
//! to one template, one matching threshold and one source-region
//! policy, plus the disambiguation of the two near-identical potion
//! templates.

use vstd::prelude::*;

use crate::error::DetectError;
use crate::geometry::{Point, Rect};
use crate::template::{best_match, match_multiple, spec_single_match, ScoreMap};

verus! {

/// The status effects the pipeline can detect. Each maps to exactly
/// one template and threshold, and to one source-region policy.
#[derive(Clone, Copy, Debug, PartialEq, Eq, Hash, Structural)]
pub enum BuffKind {
    Rune,
    SayramElixir,
    AureliaElixir,
    ExpCouponX3,
    BonusExpCoupon,
    LegionWealth,
    LegionLuck,
    WealthAcquisitionPotion,
    ExpAccumulationPotion,
    ExtremeRedPotion,
    ExtremeBluePotion,
    ExtremeGreenPotion,
    ExtremeGoldPotion,
}

/// The matching threshold of each kind, in ten-thousandths.
pub open spec fn spec_buff_threshold(kind: BuffKind) -> int {
    match kind {
        BuffKind::AureliaElixir => 8000,
        BuffKind::LegionWealth => 7600,
        _ => 7500,
    }
}

/// The matching threshold a kind's template is held to.
pub fn buff_threshold(kind: BuffKind) -> (r: i32)
    ensures
        r == spec_buff_threshold(kind),
{
    match kind {
        BuffKind::AureliaElixir => 8000,
        BuffKind::LegionWealth => 7600,
        _ => 7500,
    }
}

/// Whether the kind is matched against the grayscale buff tray; the
/// others are matched against the colour buff tray.
pub open spec fn spec_buff_uses_grayscale_tray(kind: BuffKind) -> bool {
    match kind {
        BuffKind::Rune
        | BuffKind::SayramElixir
        | BuffKind::AureliaElixir
        | BuffKind::ExpCouponX3
        | BuffKind::BonusExpCoupon => true,
        _ => false,
    }
}

pub fn buff_uses_grayscale_tray(kind: BuffKind) -> (r: bool)
    ensures
        r == spec_buff_uses_grayscale_tray(kind),
{
    match kind {
        BuffKind::Rune
        | BuffKind::SayramElixir
        | BuffKind::AureliaElixir
        | BuffKind::ExpCouponX3
        | BuffKind::BonusExpCoupon => true,
        _ => false,
    }
}

/// The two potions whose templates are nearly identical and need the
/// masked two-way disambiguation.
pub open spec fn spec_is_similar_potion(kind: BuffKind) -> bool {
    kind == BuffKind::WealthAcquisitionPotion || kind == BuffKind::ExpAccumulationPotion
}

pub fn is_similar_potion(kind: BuffKind) -> (r: bool)
    ensures
        r == spec_is_similar_potion(kind),
{
    match kind {
        BuffKind::WealthAcquisitionPotion | BuffKind::ExpAccumulationPotion => true,
        _ => false,
    }
}

/// The other of the two near-identical potions.
pub fn similar_potion_other(kind: BuffKind) -> (r: BuffKind)
    requires
        spec_is_similar_potion(kind),
    ensures
        r == if kind == BuffKind::WealthAcquisitionPotion {
            BuffKind::ExpAccumulationPotion
        } else {
            BuffKind::WealthAcquisitionPotion
        },
{
    match kind {
        BuffKind::WealthAcquisitionPotion => BuffKind::ExpAccumulationPotion,
        _ => BuffKind::WealthAcquisitionPotion,
    }
}

/// The disambiguation rule for the two near-identical potions, given
/// this kind's accepted matches and the other kind's single match
/// outcome: no match means absent; two matches mean both potions are
/// up, so present; one match is attributed to this kind only when the
/// other template matched worse or not at all.
pub open spec fn spec_resolve_similar_potion(
    scores: Seq<i32>,
    other: Option<(Rect, i32)>,
) -> bool {
    if scores.len() == 0 {
        false
    } else if scores.len() >= 2 {
        true
    } else {
        match other {
            None => true,
            Some(o) => o.1 < scores[0],
        }
    }
}

/// Decide whether this potion kind is active from its own accepted
/// match scores and the other template's match outcome.
pub fn resolve_similar_potion(scores: &Vec<i32>, other: Option<(Rect, i32)>) -> (r: bool)
    ensures
        r == spec_resolve_similar_potion(scores@, other),
{
    if scores.len() == 0 {
        return false;
    }
    if scores.len() >= 2 {
        return true;
    }
    match other {
        None => true,
        Some(o) => o.1 < scores[0],
    }
}

/// Detect a buff that needs no disambiguation: its template matched
/// the tray crop somewhere at or above the kind's threshold.
pub fn detect_simple_buff(map: &ScoreMap, kind: BuffKind) -> (r: bool)
    requires
        map.wf(),
        !spec_is_similar_potion(kind),
    ensures
        r == exists|px: int, py: int|
            #[trigger] map.is_first_peak(px, py) && map.val(px, py) >= spec_buff_threshold(kind),
{
    let threshold = buff_threshold(kind);
    let outcome = best_match(map, 1, 1, Point { x: 0, y: 0 }, threshold);
    outcome.is_ok()
}

/// Detect one of the two near-identical potions: run a masked
/// two-match query against this kind's template, then resolve against
/// the other template's single match. When even the first attempt on
/// this kind's template fails, the buff is reported absent.
pub fn detect_similar_potion_buff(
    own_map: ScoreMap,
    other_map: &ScoreMap,
    template_width: i32,
    template_height: i32,
    kind: BuffKind,
) -> (r: bool)
    requires
        own_map.wf(),
        other_map.wf(),
        0 < template_width <= 1_000_000,
        0 < template_height <= 1_000_000,
        spec_is_similar_potion(kind),
    ensures
        (exists|px: int, py: int|
            #[trigger] own_map.is_first_peak(px, py) && own_map.val(px, py)
                < spec_buff_threshold(kind)) ==> !r,
        (exists|px: int, py: int|
            #[trigger] own_map.is_first_peak(px, py) && own_map.val(px, py)
                >= spec_buff_threshold(kind)) && (exists|qx: int, qy: int|
            #[trigger] other_map.is_first_peak(qx, qy) && other_map.val(qx, qy)
                < spec_buff_threshold(kind)) ==> r,
        (exists|px: int, py: int, qx: int, qy: int|
            #[trigger] own_map.is_first_peak(px, py) && #[trigger] other_map.is_first_peak(qx, qy)
                && own_map.val(px, py) >= spec_buff_threshold(kind) && other_map.val(qx, qy)
                < own_map.val(px, py)) ==> r,
        (exists|px: int, py: int, qx: int, qy: int|
            #[trigger] own_map.is_first_peak(px, py) && own_map.val(px, py)
                >= spec_buff_threshold(kind) && 0 <= qx < own_map.spec_width() && 0 <= qy
                < own_map.spec_height() && #[trigger] own_map.val(qx, qy) >= spec_buff_threshold(
                kind,
            ) && !(px <= qx < px + template_width && py <= qy < py + template_height)) ==> r,
        (exists|px: int, py: int, qx: int, qy: int|
            #[trigger] own_map.is_first_peak(px, py) && #[trigger] other_map.is_first_peak(qx, qy)
                && own_map.val(px, py) >= spec_buff_threshold(kind) && other_map.val(qx, qy)
                >= own_map.val(px, py) && (forall|ux: int, uy: int|
                0 <= ux < own_map.spec_width() && 0 <= uy < own_map.spec_height() && !(px <= ux
                    < px + template_width && py <= uy < py + template_height)
                    ==> #[trigger] own_map.val(ux, uy) < spec_buff_threshold(kind))) ==> !r,
{
    let threshold = buff_threshold(kind);
    let ghost own_snapshot = own_map;
    let attempts = match_multiple(
        own_map,
        template_width,
        template_height,
        Point { x: 0, y: 0 },
        2,
        threshold,
    );
    let mut scores: Vec<i32> = Vec::new();
    let mut i: usize = 0;
    while i < attempts.len()
        invariant
            i <= attempts@.len(),
            scores@.len() <= i,
            attempts@.len() >= 1,
            spec_single_match(
                own_snapshot,
                template_width,
                template_height,
                Point { x: 0, y: 0 },
                spec_buff_threshold(kind) as i32,
                attempts@[0],
            ),
            attempts@[0] is Err ==> attempts@.len() == 1,
            attempts@[0] is Err ==> scores@.len() == 0,
            forall|m: (Rect, i32)|
                attempts@[0] == Ok::<(Rect, i32), crate::error::DetectError>(m) && i >= 1
                    ==> scores@.len() >= 1 && scores@[0] == m.1,
            attempts@.len() >= 2 && attempts@[0] is Ok && attempts@[1] is Ok && i >= 2
                ==> scores@.len() >= 2,
            attempts@.len() == 2 && attempts@[0] is Ok && attempts@[1] is Err && i >= 2
                ==> scores@.len() == 1,
        decreases attempts@.len() - i,
    {
        match attempts[i] {
            Ok(m) => {
                scores.push(m.1);
            },
            Err(_) => {
            },
        }
        i += 1;
    }
    proof {
        if exists|px: int, py: int, qx: int, qy: int|
            #[trigger] own_snapshot.is_first_peak(px, py) && own_snapshot.val(px, py)
                >= spec_buff_threshold(kind) && 0 <= qx < own_snapshot.spec_width() && 0 <= qy
                < own_snapshot.spec_height() && #[trigger] own_snapshot.val(qx, qy)
                >= spec_buff_threshold(kind) && !(px <= qx < px + template_width && py <= qy < py
                + template_height) {
            let (px, py, qx, qy) = choose|px: int, py: int, qx: int, qy: int|
                #[trigger] own_snapshot.is_first_peak(px, py) && own_snapshot.val(px, py)
                    >= spec_buff_threshold(kind) && 0 <= qx < own_snapshot.spec_width() && 0 <= qy
                    < own_snapshot.spec_height() && #[trigger] own_snapshot.val(qx, qy)
                    >= spec_buff_threshold(kind) && !(px <= qx < px + template_width && py <= qy
                    < py + template_height);
            match attempts@[0] {
                Ok(m) => {
                    let (ax, ay) = choose|ax: int, ay: int|
                        {
                            &&& #[trigger] own_snapshot.is_first_peak(ax, ay)
                            &&& m.1 == own_snapshot.val(ax, ay)
                            &&& m.1 >= threshold
                            &&& m.0 == (Rect {
                                x: (0 + ax) as i32,
                                y: (0 + ay) as i32,
                                width: template_width,
                                height: template_height,
                            })
                        };
                    assert(ax == px && ay == py) by {
                        if ax != px || ay != py {
                            if crate::template::scanned_before(ax, ay, px, py) {
                                assert(own_snapshot.val(ax, ay) < own_snapshot.val(px, py));
                                assert(own_snapshot.val(px, py) <= own_snapshot.val(ax, ay));
                            } else {
                                assert(crate::template::scanned_before(px, py, ax, ay));
                                assert(own_snapshot.val(px, py) < own_snapshot.val(ax, ay));
                                assert(own_snapshot.val(ax, ay) <= own_snapshot.val(px, py));
                            }
                        }
                    }
                    assert(m.0.x == px && m.0.y == py);
                    assert(attempts@.len() >= 2 && attempts@[1] is Ok);
                    assert(scores@.len() >= 2);
                },
                Err(e) => {
                    match e {
                        DetectError::NotFound(best) => {
                            let (bx, by) = choose|bx: int, by: int|
                                #[trigger] own_snapshot.is_first_peak(bx, by) && best
                                    == own_snapshot.val(bx, by);
                            assert(own_snapshot.val(bx, by) >= own_snapshot.val(px, py));
                            assert(false);
                        },
                        _ => {
                            assert(false);
                        },
                    }
                },
            }
        }
    }
    proof {
        if exists|px: int, py: int, qx: int, qy: int|
            #[trigger] own_snapshot.is_first_peak(px, py) && #[trigger] other_map.is_first_peak(
                qx,
                qy,
            ) && own_snapshot.val(px, py) >= spec_buff_threshold(kind) && other_map.val(qx, qy)
                >= own_snapshot.val(px, py) && (forall|ux: int, uy: int|
                0 <= ux < own_snapshot.spec_width() && 0 <= uy < own_snapshot.spec_height() && !(px
                    <= ux < px + template_width && py <= uy < py + template_height)
                    ==> #[trigger] own_snapshot.val(ux, uy) < spec_buff_threshold(kind)) {
            let (px, py, qx, qy) = choose|px: int, py: int, qx: int, qy: int|
                #[trigger] own_snapshot.is_first_peak(px, py) && #[trigger] other_map.is_first_peak(
                    qx,
                    qy,
                ) && own_snapshot.val(px, py) >= spec_buff_threshold(kind) && other_map.val(qx, qy)
                    >= own_snapshot.val(px, py) && (forall|ux: int, uy: int|
                    0 <= ux < own_snapshot.spec_width() && 0 <= uy < own_snapshot.spec_height()
                        && !(px <= ux < px + template_width && py <= uy < py + template_height)
                        ==> #[trigger] own_snapshot.val(ux, uy) < spec_buff_threshold(kind));
            match attempts@[0] {
                Ok(m) => {
                    let (ax, ay) = choose|ax: int, ay: int|
                        {
                            &&& #[trigger] own_snapshot.is_first_peak(ax, ay)
                            &&& m.1 == own_snapshot.val(ax, ay)
                            &&& m.1 >= threshold
                            &&& m.0 == (Rect {
                                x: (0 + ax) as i32,
                                y: (0 + ay) as i32,
                                width: template_width,
                                height: template_height,
                            })
                        };
                    assert(ax == px && ay == py) by {
                        if ax != px || ay != py {
                            if crate::template::scanned_before(ax, ay, px, py) {
                                assert(own_snapshot.val(ax, ay) < own_snapshot.val(px, py));
                                assert(own_snapshot.val(px, py) <= own_snapshot.val(ax, ay));
                            } else {
                                assert(crate::template::scanned_before(px, py, ax, ay));
                                assert(own_snapshot.val(px, py) < own_snapshot.val(ax, ay));
                                assert(own_snapshot.val(ax, ay) <= own_snapshot.val(px, py));
                            }
                        }
                    }
                    assert(m.0.x == px && m.0.y == py);
                    assert(attempts@.len() >= 2);
                    if attempts@[1] is Ok {
                        let (sx2, sy2) = choose|sx2: int, sy2: int|
                            0 <= sx2 < own_snapshot.spec_width() && 0 <= sy2
                                < own_snapshot.spec_height() && #[trigger] own_snapshot.val(
                                sx2,
                                sy2,
                            ) >= threshold && !(m.0.x <= sx2 < m.0.x + template_width && m.0.y
                                <= sy2 < m.0.y + template_height);
                        assert(own_snapshot.val(sx2, sy2) < spec_buff_threshold(kind));
                        assert(false);
                    }
                    assert(attempts@[1] is Err);
                    assert(scores@.len() == 1);
                    assert(scores@[0] == m.1);
                    assert(m.1 <= own_snapshot.val(px, py));
                },
                Err(e) => {
                    match e {
                        DetectError::NotFound(best) => {
                            let (bx, by) = choose|bx: int, by: int|
                                #[trigger] own_snapshot.is_first_peak(bx, by) && best
                                    == own_snapshot.val(bx, by);
                            assert(own_snapshot.val(bx, by) >= own_snapshot.val(px, py));
                            assert(false);
                        },
                        _ => {
                            assert(false);
                        },
                    }
                },
            }
        }
    }
    if scores.len() == 0 {
        return false;
    }
    let other = best_match(other_map, template_width, template_height, Point { x: 0, y: 0 }, threshold);
    let other_opt = match other {
        Ok(m) => Some(m),
        Err(_) => None,
    };
    resolve_similar_potion(&scores, other_opt)
}

} // verus!

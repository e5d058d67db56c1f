//! Decoding of neural bounding-box output.
//!
//! Inference runs outside the library; each output row arrives here as
//! a [`RawDetection`]: corner coordinates in the network's input space
//! and a confidence, all fixed-point ten-thousandths, plus a class
//! field. This module applies the confidence floor, remaps survivors
//! to source-image coordinates by the stored resize ratios, and
//! decodes the fixed-arity rune-arrow reading.

use vstd::prelude::*;
use vstd::seq_lib::group_to_multiset_ensures;

use crate::error::DetectError;
use crate::geometry::{Point, Rect};

verus! {

/// Confidence floor for generic object detection (`0.5`).
pub const CONFIDENCE_FLOOR: i32 = 5000;

/// Confidence floor for rune-arrow classification (`0.8`).
pub const RUNE_CONFIDENCE_FLOOR: i32 = 8000;

/// One decoded output row: a candidate box in model space.
///
/// Coordinates and confidence are fixed-point ten-thousandths; the
/// corners are in the network's input coordinate space, before
/// remapping to the source image.
#[derive(Clone, Copy, Debug, PartialEq, Eq, Structural)]
pub struct RawDetection {
    pub x1: i32,
    pub y1: i32,
    pub x2: i32,
    pub y2: i32,
    pub confidence: i32,
    pub class_id: i32,
}

impl RawDetection {
    /// Values a decoded row can carry without overflowing the remap
    /// arithmetic.
    pub open spec fn wf(self) -> bool {
        &&& -1_000_000_000 <= self.x1 <= 1_000_000_000
        &&& -1_000_000_000 <= self.y1 <= 1_000_000_000
        &&& -1_000_000_000 <= self.x2 <= 1_000_000_000
        &&& -1_000_000_000 <= self.y2 <= 1_000_000_000
    }
}

/// The rows clearing a confidence floor, in input order.
pub open spec fn spec_kept(s: Seq<RawDetection>, floor: int) -> Seq<RawDetection>
    decreases s.len(),
{
    if s.len() == 0 {
        Seq::empty()
    } else if s.last().confidence >= floor {
        spec_kept(s.drop_last(), floor).push(s.last())
    } else {
        spec_kept(s.drop_last(), floor)
    }
}

/// Discard rows whose confidence is below `floor`, keeping input
/// order.
pub fn filter_by_confidence(dets: &Vec<RawDetection>, floor: i32) -> (r: Vec<RawDetection>)
    ensures
        r@ == spec_kept(dets@, floor as int),
{
    let mut out: Vec<RawDetection> = Vec::new();
    let mut i: usize = 0;
    while i < dets.len()
        invariant
            i <= dets@.len(),
            out@ == spec_kept(dets@.take(i as int), floor as int),
        decreases dets@.len() - i,
    {
        proof {
            assert(dets@.take(i + 1).drop_last() == dets@.take(i as int));
            assert(dets@.take(i + 1).last() == dets@[i as int]);
        }
        if dets[i].confidence >= floor {
            out.push(dets[i]);
        }
        i += 1;
    }
    proof {
        assert(dets@.take(dets@.len() as int) == dets@);
    }
    out
}

/// One model-space coordinate scaled by the resize ratio `num / den`,
/// truncated, and clamped to `[0, limit]`. The coordinate itself is in
/// ten-thousandths, so the scale also divides those out.
pub open spec fn spec_remap_axis(v: int, num: int, den: int, limit: int) -> int {
    let scaled = if v <= 0 {
        0
    } else {
        (v * num) / (den * 10000)
    };
    if scaled > limit {
        limit
    } else {
        scaled
    }
}

fn remap_axis(v: i32, num: i32, den: i32, limit: i32) -> (r: i32)
    requires
        -1_000_000_000 <= v <= 1_000_000_000,
        0 <= num <= 1_000_000,
        0 < den <= 1_000_000,
        0 <= limit <= 1_000_000,
    ensures
        r == spec_remap_axis(v as int, num as int, den as int, limit as int),
        0 <= r <= limit,
{
    if v <= 0 {
        return 0;
    }
    proof {
        vstd::arithmetic::mul::lemma_mul_nonnegative(v as int, num as int);
        vstd::arithmetic::mul::lemma_mul_upper_bound(
            v as int,
            1_000_000_000,
            num as int,
            1_000_000,
        );
    }
    let scaled = ((v as i64) * (num as i64)) / ((den as i64) * 10000);
    if scaled > limit as i64 {
        limit
    } else {
        proof {
            vstd::arithmetic::div_mod::lemma_div_pos_is_pos(
                (v as int) * (num as int),
                (den as int) * 10000,
            );
        }
        scaled as i32
    }
}

/// The rectangle `remap_detection` produces for a row.
pub open spec fn spec_remap_rect(
    d: RawDetection,
    width: int,
    height: int,
    w_num: int,
    w_den: int,
    h_num: int,
    h_den: int,
) -> Rect {
    let rx1 = spec_remap_axis(d.x1 as int, w_num, w_den, width);
    let ry1 = spec_remap_axis(d.y1 as int, h_num, h_den, height);
    let rx2 = spec_remap_axis(d.x2 as int, w_num, w_den, width);
    let ry2 = spec_remap_axis(d.y2 as int, h_num, h_den, height);
    let x = if rx1 <= rx2 {
        rx1
    } else {
        rx2
    };
    let y = if ry1 <= ry2 {
        ry1
    } else {
        ry2
    };
    let xe = if rx1 <= rx2 {
        rx2
    } else {
        rx1
    };
    let ye = if ry1 <= ry2 {
        ry2
    } else {
        ry1
    };
    Rect { x: x as i32, y: y as i32, width: (xe - x) as i32, height: (ye - y) as i32 }
}

/// Remap a surviving candidate from model space to source-image
/// coordinates: scale each corner by the width and height ratios
/// (`w_num / w_den`, `h_num / h_den`), clamp into the image, and span
/// the rectangle between the two corners.
pub fn remap_detection(
    d: &RawDetection,
    width: i32,
    height: i32,
    w_num: i32,
    w_den: i32,
    h_num: i32,
    h_den: i32,
) -> (r: Rect)
    requires
        d.wf(),
        0 <= width <= 1_000_000,
        0 <= height <= 1_000_000,
        0 <= w_num <= 1_000_000,
        0 < w_den <= 1_000_000,
        0 <= h_num <= 1_000_000,
        0 < h_den <= 1_000_000,
    ensures
        ({
            let rx1 = spec_remap_axis(d.x1 as int, w_num as int, w_den as int, width as int);
            let ry1 = spec_remap_axis(d.y1 as int, h_num as int, h_den as int, height as int);
            let rx2 = spec_remap_axis(d.x2 as int, w_num as int, w_den as int, width as int);
            let ry2 = spec_remap_axis(d.y2 as int, h_num as int, h_den as int, height as int);
            &&& r.x == if rx1 <= rx2 { rx1 } else { rx2 }
            &&& r.y == if ry1 <= ry2 { ry1 } else { ry2 }
            &&& r.right() == if rx1 <= rx2 { rx2 } else { rx1 }
            &&& r.bottom() == if ry1 <= ry2 { ry2 } else { ry1 }
        }),
        r == spec_remap_rect(
            *d,
            width as int,
            height as int,
            w_num as int,
            w_den as int,
            h_num as int,
            h_den as int,
        ),
        r.wf(),
        r.right() <= width,
        r.bottom() <= height,
{
    let tl_x = remap_axis(d.x1, w_num, w_den, width);
    let tl_y = remap_axis(d.y1, h_num, h_den, height);
    let br_x = remap_axis(d.x2, w_num, w_den, width);
    let br_y = remap_axis(d.y2, h_num, h_den, height);
    Rect::from_points(Point { x: tl_x, y: tl_y }, Point { x: br_x, y: br_y })
}

/// The index `best_candidate` picks: the row holding the maximum
/// confidence, the last one when several tie.
pub open spec fn spec_is_last_argmax(s: Seq<RawDetection>, i: int) -> bool {
    &&& 0 <= i < s.len()
    &&& forall|k: int| 0 <= k < s.len() ==> (#[trigger] s[k]).confidence <= s[i].confidence
    &&& forall|k: int| i < k < s.len() ==> (#[trigger] s[k]).confidence < s[i].confidence
}

/// The row with the highest confidence (the last such row on a tie),
/// or `None` when there are no rows.
pub fn best_candidate(dets: &Vec<RawDetection>) -> (r: Option<usize>)
    ensures
        match r {
            Some(i) => spec_is_last_argmax(dets@, i as int),
            None => dets@.len() == 0,
        },
{
    if dets.len() == 0 {
        return None;
    }
    let mut best: usize = 0;
    let mut i: usize = 1;
    while i < dets.len()
        invariant
            dets@.len() > 0,
            best < i <= dets@.len(),
            forall|k: int| 0 <= k < i ==> (#[trigger] dets@[k]).confidence <= dets@[
                best as int].confidence,
            forall|k: int| best < k < i ==> (#[trigger] dets@[k]).confidence < dets@[
                best as int].confidence,
        decreases dets@.len() - i,
    {
        if dets[i].confidence >= dets[best].confidence {
            best = i;
        }
        i += 1;
    }
    Some(best)
}

/// The key a rune arrow class decodes to, in reading order on screen.
#[derive(Clone, Copy, Debug, PartialEq, Eq, Structural)]
pub enum ArrowKey {
    Up,
    Down,
    Left,
    Right,
}

/// How a class field decodes to an arrow.
pub open spec fn spec_arrow_of(class_id: int) -> ArrowKey {
    if class_id == 0 {
        ArrowKey::Up
    } else if class_id == 1 {
        ArrowKey::Down
    } else if class_id == 2 {
        ArrowKey::Left
    } else {
        ArrowKey::Right
    }
}

fn arrow_of(class_id: i32) -> (r: ArrowKey)
    requires
        0 <= class_id < 4,
    ensures
        r == spec_arrow_of(class_id as int),
{
    if class_id == 0 {
        ArrowKey::Up
    } else if class_id == 1 {
        ArrowKey::Down
    } else if class_id == 2 {
        ArrowKey::Left
    } else {
        ArrowKey::Right
    }
}

/// Ascending by the left edge's x coordinate.
pub open spec fn spec_sorted_by_left(s: Seq<RawDetection>) -> bool {
    forall|i: int, j: int| 0 <= i < j < s.len() ==> (#[trigger] s[i]).x1 <= (#[trigger] s[j]).x1
}

/// Sort ascending by the left edge, returning the same rows.
fn sort_by_left_edge(v: Vec<RawDetection>) -> (r: Vec<RawDetection>)
    ensures
        spec_sorted_by_left(r@),
        r@.to_multiset() == v@.to_multiset(),
        r@.len() == v@.len(),
{
    broadcast use group_to_multiset_ensures;

    let mut rest = v;
    let mut out: Vec<RawDetection> = Vec::new();
    while rest.len() > 0
        invariant
            out@.to_multiset().add(rest@.to_multiset()) == v@.to_multiset(),
            out@.len() + rest@.len() == v@.len(),
            spec_sorted_by_left(out@),
            forall|i: int, j: int|
                0 <= i < out@.len() && 0 <= j < rest@.len() ==> (#[trigger] out@[i]).x1
                    <= (#[trigger] rest@[j]).x1,
        decreases rest@.len(),
    {
        let mut m: usize = 0;
        let mut k: usize = 1;
        while k < rest.len()
            invariant
                rest@.len() > 0,
                m < k <= rest@.len(),
                forall|j: int| 0 <= j < k ==> (#[trigger] rest@[j]).x1 >= rest@[m as int].x1,
            decreases rest@.len() - k,
        {
            if rest[k].x1 < rest[m].x1 {
                m = k;
            }
            k += 1;
        }
        let ghost rest_before = rest@;
        let ghost out_before = out@;
        let d = rest.remove(m);
        out.push(d);
        proof {
            broadcast use vstd::multiset::group_multiset_axioms;

            rest_before.to_multiset_ensures();
            out_before.to_multiset_ensures();
            assert(rest@ == rest_before.remove(m as int));
            assert(rest_before.remove(m as int).to_multiset() =~= rest_before.to_multiset().remove(
                rest_before[m as int],
            ));
            assert(out@ == out_before.push(d));
            assert(out_before.push(d).to_multiset() =~= out_before.to_multiset().insert(d));
            assert(rest_before.contains(d));
            assert(rest_before.to_multiset().count(d) > 0);
            assert(out@.to_multiset().add(rest@.to_multiset()) =~= v@.to_multiset());
            assert forall|i: int, j: int|
                0 <= i < out@.len() && 0 <= j < rest@.len() implies (#[trigger] out@[i]).x1 <= (
            #[trigger] rest@[j]).x1 by {
                if i < out@.len() - 1 {
                    assert(out@[i] == out_before[i]);
                    assert(rest@[j] == rest_before[if j < m { j } else { j + 1 }]);
                } else {
                    assert(out@[i] == d);
                    assert(rest@[j] == rest_before[if j < m { j } else { j + 1 }]);
                }
            }
        }
    }
    out
}

/// Decode the four rune arrows: keep rows clearing the rune confidence
/// floor, demand exactly four, and read them left to right.
///
/// Every surviving row's class field must name one of the four arrows;
/// anything else is a caller error.
pub fn decode_rune_arrows(dets: &Vec<RawDetection>) -> (r: Result<[ArrowKey; 4], DetectError>)
    requires
        forall|i: int|
            0 <= i < dets@.len() && (#[trigger] dets@[i]).confidence >= RUNE_CONFIDENCE_FLOOR
                ==> 0 <= dets@[i].class_id < 4,
    ensures
        r is Ok <==> spec_kept(dets@, RUNE_CONFIDENCE_FLOOR as int).len() == 4,
        r matches Err(e) ==> e == DetectError::DetectionCountMismatch,
        r matches Ok(arrows) ==> exists|s: Seq<RawDetection>|
            {
                &&& s.to_multiset() == spec_kept(dets@, RUNE_CONFIDENCE_FLOOR as int).to_multiset()
                &&& #[trigger] spec_sorted_by_left(s)
                &&& s.len() == 4
                &&& forall|i: int| 0 <= i < 4 ==> arrows@[i] == spec_arrow_of((#[trigger] s[i]).class_id as int)
            },
{
    broadcast use group_to_multiset_ensures;

    let kept = filter_by_confidence(dets, RUNE_CONFIDENCE_FLOOR);
    if kept.len() != 4 {
        return Err(DetectError::DetectionCountMismatch);
    }
    proof {
        lemma_kept_class_in_range(dets@, RUNE_CONFIDENCE_FLOOR as int);
    }
    let sorted = sort_by_left_edge(kept);
    proof {
        assert forall|i: int| 0 <= i < sorted@.len() implies 0 <= (#[trigger] sorted@[i]).class_id
            < 4 by {
            assert(sorted@.to_multiset().contains(sorted@[i]));
        }
    }
    let first = arrow_of(sorted[0].class_id);
    let second = arrow_of(sorted[1].class_id);
    let third = arrow_of(sorted[2].class_id);
    let fourth = arrow_of(sorted[3].class_id);
    let arrows = [first, second, third, fourth];
    proof {
        let s = sorted@;
        assert(arrows@[0] == spec_arrow_of(s[0].class_id as int));
        assert(arrows@[1] == spec_arrow_of(s[1].class_id as int));
        assert(arrows@[2] == spec_arrow_of(s[2].class_id as int));
        assert(arrows@[3] == spec_arrow_of(s[3].class_id as int));
    }
    Ok(arrows)
}

/// Every row the rune filter keeps names one of the four arrow
/// classes, when every confident input row does.
proof fn lemma_kept_class_in_range(s: Seq<RawDetection>, floor: int)
    requires
        forall|i: int|
            0 <= i < s.len() && (#[trigger] s[i]).confidence >= floor ==> 0 <= s[i].class_id < 4,
    ensures
        forall|i: int|
            0 <= i < spec_kept(s, floor).len() ==> 0 <= (#[trigger] spec_kept(s, floor)[i]).class_id
                < 4,
        forall|i: int|
            0 <= i < spec_kept(s, floor).len() ==> (#[trigger] spec_kept(s, floor)[i]).confidence
                >= floor,
    decreases s.len(),
{
    if s.len() > 0 {
        assert(forall|i: int|
            0 <= i < s.drop_last().len() && (#[trigger] s.drop_last()[i]).confidence >= floor
                ==> 0 <= s.drop_last()[i].class_id < 4);
        lemma_kept_class_in_range(s.drop_last(), floor);
        let k = spec_kept(s, floor);
        let kd = spec_kept(s.drop_last(), floor);
        if s.last().confidence >= floor {
            assert(s.last() == s[s.len() - 1]);
            assert(k == kd.push(s.last()));
            assert forall|i: int| 0 <= i < k.len() implies 0 <= (#[trigger] k[i]).class_id < 4
                && k[i].confidence >= floor by {
                if i < kd.len() {
                    assert(k[i] == kd[i]);
                } else {
                    assert(k[i] == s.last());
                }
            }
        } else {
            assert(k == kd);
        }
    }
}

} // verus!

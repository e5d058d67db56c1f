//! Template-match selection over a correlation score map, with
//! single-match thresholding and multi-match non-maximum suppression.
//!
//! The normalized cross-correlation between a source image and a
//! template is computed outside the library; it arrives here as a
//! [`ScoreMap`]: one fixed-point score in ten-thousandths per placement
//! of the template's top-left corner. This module locates the global
//! maximum, applies the caller's threshold, and for multi-match
//! queries erases each accepted match's footprint before searching for
//! the next one, so the same instance is never reported twice.

use vstd::prelude::*;

use crate::error::DetectError;
use crate::geometry::{Point, Rect};

verus! {

/// A per-placement correlation score surface.
///
/// Scores are fixed-point ten-thousandths; normalized correlation lies
/// in `[-10000, 10000]`.
pub struct ScoreMap {
    width: usize,
    height: usize,
    data: Vec<i32>,
}

/// `(x1, y1)` comes before `(x2, y2)` in row-major scan order.
pub open spec fn scanned_before(x1: int, y1: int, x2: int, y2: int) -> bool {
    y1 < y2 || (y1 == y2 && x1 < x2)
}

impl ScoreMap {
    pub closed spec fn spec_width(self) -> int {
        self.width as int
    }

    pub closed spec fn spec_height(self) -> int {
        self.height as int
    }

    /// The scores in row-major order.
    pub closed spec fn cells(self) -> Seq<i32> {
        self.data@
    }

    /// The score at column `x`, row `y`.
    pub open spec fn val(self, x: int, y: int) -> int {
        self.cells()[y * self.spec_width() + x] as int
    }

    pub open spec fn wf(self) -> bool {
        &&& self.cells().len() == self.spec_width() * self.spec_height()
        &&& 0 < self.spec_width() <= 0x8000
        &&& 0 < self.spec_height() <= 0x8000
    }

    /// `(px, py)` holds the global maximum, and every cell scanned
    /// before it in row-major order is strictly below it. These
    /// conditions pin down one location.
    pub open spec fn is_first_peak(self, px: int, py: int) -> bool {
        &&& 0 <= px < self.spec_width()
        &&& 0 <= py < self.spec_height()
        &&& forall|x: int, y: int|
            0 <= x < self.spec_width() && 0 <= y < self.spec_height() ==> self.val(x, y)
                <= self.val(px, py)
        &&& forall|x: int, y: int|
            0 <= x < self.spec_width() && 0 <= y < self.spec_height() && scanned_before(
                x,
                y,
                px,
                py,
            ) ==> self.val(x, y) < self.val(px, py)
    }

    pub fn new(width: usize, height: usize, data: Vec<i32>) -> (r: ScoreMap)
        requires
            0 < width <= 0x8000,
            0 < height <= 0x8000,
            data@.len() == width * height,
        ensures
            r.wf(),
            r.spec_width() == width,
            r.spec_height() == height,
            r.cells() == data@,
    {
        ScoreMap { width, height, data }
    }

    pub fn width(&self) -> (r: usize)
        ensures
            r == self.spec_width(),
    {
        self.width
    }

    pub fn height(&self) -> (r: usize)
        ensures
            r == self.spec_height(),
    {
        self.height
    }

    proof fn lemma_index_in_bounds(self, x: int, y: int)
        requires
            self.wf(),
            0 <= x < self.spec_width(),
            0 <= y < self.spec_height(),
        ensures
            0 <= y * self.spec_width() + x < self.cells().len(),
            y * self.spec_width() + x < 0x4000_0000,
    {
        let w = self.spec_width();
        let h = self.spec_height();
        vstd::arithmetic::mul::lemma_mul_nonnegative(y, w);
        vstd::arithmetic::mul::lemma_mul_inequality(y, h - 1, w);
        assert((h - 1) * w == h * w - w) by (nonlinear_arith);
        vstd::arithmetic::mul::lemma_mul_upper_bound(h, 0x8000, w, 0x8000);
    }

    pub fn at(&self, x: usize, y: usize) -> (r: i32)
        requires
            self.wf(),
            x < self.spec_width(),
            y < self.spec_height(),
        ensures
            r == self.val(x as int, y as int),
    {
        proof {
            self.lemma_index_in_bounds(x as int, y as int);
        }
        self.data[y * self.width + x]
    }

    /// The location and value of the first global maximum in row-major
    /// scan order.
    pub fn max_location(&self) -> (r: (Point, i32))
        requires
            self.wf(),
        ensures
            self.is_first_peak(r.0.x as int, r.0.y as int),
            r.1 == self.val(r.0.x as int, r.0.y as int),
    {
        let mut best_x: usize = 0;
        let mut best_y: usize = 0;
        let mut best_v: i32 = self.at(0, 0);
        let mut y: usize = 0;
        while y < self.height
            invariant
                self.wf(),
                y <= self.spec_height(),
                0 <= best_x < self.spec_width(),
                0 <= best_y < self.spec_height(),
                y > 0 ==> best_y < y,
                y == 0 ==> best_x == 0 && best_y == 0,
                best_v == self.val(best_x as int, best_y as int),
                forall|xx: int, yy: int|
                    0 <= xx < self.spec_width() && 0 <= yy < y ==> self.val(xx, yy) <= best_v,
                forall|xx: int, yy: int|
                    0 <= xx < self.spec_width() && 0 <= yy < y && scanned_before(
                        xx,
                        yy,
                        best_x as int,
                        best_y as int,
                    ) ==> self.val(xx, yy) < best_v,
            decreases self.spec_height() - y,
        {
            let mut x: usize = 0;
            while x < self.width
                invariant
                    self.wf(),
                    y < self.spec_height(),
                    x <= self.spec_width(),
                    0 <= best_x < self.spec_width(),
                    0 <= best_y < self.spec_height(),
                    scanned_before(best_x as int, best_y as int, x as int, y as int) || (best_x
                        == x && best_y == y && x < self.spec_width()) || (y == 0 && x == 0
                        && best_x == 0 && best_y == 0),
                    best_v == self.val(best_x as int, best_y as int),
                    forall|xx: int, yy: int|
                        0 <= xx < self.spec_width() && 0 <= yy < y ==> self.val(xx, yy) <= best_v,
                    forall|xx: int|
                        0 <= xx < x ==> self.val(xx, y as int) <= best_v,
                    forall|xx: int, yy: int|
                        (0 <= xx < self.spec_width() && 0 <= yy < y || 0 <= xx < x && yy == y)
                            && scanned_before(xx, yy, best_x as int, best_y as int) ==> self.val(
                            xx,
                            yy,
                        ) < best_v,
                decreases self.spec_width() - x,
            {
                let v = self.at(x, y);
                if v > best_v {
                    best_x = x;
                    best_y = y;
                    best_v = v;
                }
                x += 1;
            }
            y += 1;
        }
        (Point { x: best_x as i32, y: best_y as i32 }, best_v)
    }

    /// Erase the footprint of an accepted match: every cell covered by
    /// `region` (clipped to the map) becomes zero, all others keep
    /// their score.
    pub fn suppress(&mut self, region: Rect)
        requires
            old(self).wf(),
            region.wf(),
        ensures
            final(self).wf(),
            final(self).spec_width() == old(self).spec_width(),
            final(self).spec_height() == old(self).spec_height(),
            forall|x: int, y: int|
                0 <= x < old(self).spec_width() && 0 <= y < old(self).spec_height()
                    ==> final(self).val(x, y) == if region.x <= x < region.right() && region.y <= y
                    < region.bottom() {
                    0int
                } else {
                    old(self).val(x, y)
                },
    {
        let y_end: usize = if region.y + region.height <= self.height as i32 {
            (region.y + region.height) as usize
        } else {
            self.height
        };
        let x_end: usize = if region.x + region.width <= self.width as i32 {
            (region.x + region.width) as usize
        } else {
            self.width
        };
        let mut y: usize = region.y as usize;
        while y < y_end
            invariant
                self.wf(),
                self.spec_width() == old(self).spec_width(),
                self.spec_height() == old(self).spec_height(),
                region.wf(),
                region.y <= y,
                y_end <= self.spec_height(),
                y_end == if region.bottom() <= self.spec_height() {
                    region.bottom()
                } else {
                    self.spec_height()
                },
                x_end <= self.spec_width(),
                x_end == if region.right() <= self.spec_width() {
                    region.right()
                } else {
                    self.spec_width()
                },
                forall|xx: int, yy: int|
                    0 <= xx < self.spec_width() && 0 <= yy < self.spec_height() ==> self.val(
                        xx,
                        yy,
                    ) == if region.x <= xx < region.right() && region.y <= yy < region.bottom()
                        && yy < y {
                        0int
                    } else {
                        old(self).val(xx, yy)
                    },
            decreases y_end - y,
        {
            let mut x: usize = region.x as usize;
            while x < x_end
                invariant
                    self.wf(),
                    self.spec_width() == old(self).spec_width(),
                    self.spec_height() == old(self).spec_height(),
                    region.wf(),
                    region.x <= x,
                    region.y <= y,
                    y < y_end <= self.spec_height(),
                    y_end == if region.bottom() <= self.spec_height() {
                        region.bottom()
                    } else {
                        self.spec_height()
                    },
                    x_end <= self.spec_width(),
                    x_end == if region.right() <= self.spec_width() {
                        region.right()
                    } else {
                        self.spec_width()
                    },
                    forall|xx: int, yy: int|
                        0 <= xx < self.spec_width() && 0 <= yy < self.spec_height() ==> self.val(
                            xx,
                            yy,
                        ) == if region.x <= xx < region.right() && region.y <= yy
                            < region.bottom() && (yy < y || yy == y && xx < x) {
                            0int
                        } else {
                            old(self).val(xx, yy)
                        },
                decreases x_end - x,
            {
                proof {
                    self.lemma_index_in_bounds(x as int, y as int);
                }
                let ghost prev = *self;
                let idx = y * self.width + x;
                self.data.set(idx, 0);
                proof {
                    assert(self.cells() == prev.cells().update(idx as int, 0i32));
                    assert forall|xx: int, yy: int|
                        0 <= xx < self.spec_width() && 0 <= yy < self.spec_height() implies self
                        .val(xx, yy) == if region.x <= xx < region.right() && region.y <= yy
                        < region.bottom() && (yy < y || yy == y && xx < x + 1) {
                        0int
                    } else {
                        old(self).val(xx, yy)
                    } by {
                        prev.lemma_index_in_bounds(xx, yy);
                        if xx == x as int && yy == y as int {
                            assert(self.val(xx, yy) == 0);
                        } else {
                            lemma_row_major_injective(
                                xx,
                                yy,
                                x as int,
                                y as int,
                                self.spec_width(),
                            );
                            assert(self.val(xx, yy) == prev.val(xx, yy));
                        }
                    }
                }
                x += 1;
            }
            y += 1;
        }
    }
}

/// The outcome demanded of a single match attempt on `map`: the first
/// peak decides, the threshold gates, and a hit is the peak's location
/// translated by `offset` and carrying the template's size.
pub open spec fn spec_single_match(
    map: ScoreMap,
    template_width: i32,
    template_height: i32,
    offset: Point,
    threshold: i32,
    r: Result<(Rect, i32), DetectError>,
) -> bool {
    match r {
        Ok((rect, score)) => exists|px: int, py: int|
            {
                &&& #[trigger] map.is_first_peak(px, py)
                &&& score == map.val(px, py)
                &&& score >= threshold
                &&& rect == (Rect {
                    x: (offset.x + px) as i32,
                    y: (offset.y + py) as i32,
                    width: template_width,
                    height: template_height,
                })
            },
        Err(e) => e matches DetectError::NotFound(best) && best < threshold && exists|
            px: int,
            py: int,
        |
            #[trigger] map.is_first_peak(px, py) && best == map.val(px, py),
    }
}

/// A single match attempt: take the global maximum of the score map;
/// below `threshold` the attempt fails carrying that best score, else
/// the match is the maximum's location plus `offset`, with the
/// template's size.
pub fn best_match(
    map: &ScoreMap,
    template_width: i32,
    template_height: i32,
    offset: Point,
    threshold: i32,
) -> (r: Result<(Rect, i32), DetectError>)
    requires
        map.wf(),
        0 <= template_width <= 1_000_000,
        0 <= template_height <= 1_000_000,
        0 <= offset.x <= 1_000_000,
        0 <= offset.y <= 1_000_000,
    ensures
        spec_single_match(*map, template_width, template_height, offset, threshold, r),
        r matches Ok((rect, _)) ==> rect.wf() && offset.x <= rect.x < offset.x + map.spec_width()
            && offset.y <= rect.y < offset.y + map.spec_height() && rect.width == template_width
            && rect.height == template_height,
{
    let (loc, score) = map.max_location();
    if score < threshold {
        return Err(DetectError::NotFound(score));
    }
    let rect = Rect {
        x: offset.x + loc.x,
        y: offset.y + loc.y,
        width: template_width,
        height: template_height,
    };
    Ok((rect, score))
}

/// The number of attempts a multi-match query makes: at least one.
pub open spec fn spec_attempt_cap(max_matches: int) -> int {
    if max_matches < 1 {
        1
    } else {
        max_matches
    }
}

/// Repeated matching with non-maximum suppression, consuming the score
/// map. Each accepted match's footprint is zeroed before the next
/// search, so one instance is never reported twice; the first failed
/// attempt is reported once and ends the search.
pub fn match_multiple(
    map: ScoreMap,
    template_width: i32,
    template_height: i32,
    offset: Point,
    max_matches: usize,
    threshold: i32,
) -> (r: Vec<Result<(Rect, i32), DetectError>>)
    requires
        map.wf(),
        0 < template_width <= 1_000_000,
        0 < template_height <= 1_000_000,
        0 <= offset.x <= 1_000_000,
        0 <= offset.y <= 1_000_000,
    ensures
        1 <= r@.len() <= spec_attempt_cap(max_matches as int),
        // the first attempt is decided by the input map alone
        spec_single_match(map, template_width, template_height, offset, threshold, r@[0]),
        // only the last attempt may fail, and a failure carries a score
        // below the threshold
        forall|i: int|
            0 <= i < r@.len() && r@[i] is Err ==> i == r@.len() - 1 && ((#[trigger] r@[i])
                matches Err(DetectError::NotFound(s)) && s < threshold),
        // the search stopped early only because an attempt failed
        r@.len() < spec_attempt_cap(max_matches as int) ==> r@[r@.len() - 1] is Err,
        // every accepted match clears the threshold, has the template's
        // size and lies in the searched region
        forall|i: int|
            0 <= i < r@.len() ==> ((#[trigger] r@[i]) matches Ok((rect, score)) ==> {
                &&& score >= threshold
                &&& rect.wf()
                &&& rect.width == template_width
                &&& rect.height == template_height
                &&& offset.x <= rect.x < offset.x + map.spec_width()
                &&& offset.y <= rect.y < offset.y + map.spec_height()
            }),
        // with a non-negative threshold the accepted matches come
        // best-first: each suppression only zeroes cells, so no later
        // maximum can exceed an earlier accepted score
        forall|i: int, j: int|
            threshold >= 0 && 0 <= i < j < r@.len() ==> ((#[trigger] r@[i]) matches Ok(a) ==> ((
            #[trigger] r@[j]) matches Ok(b) ==> b.1 <= a.1)),
        // with a positive threshold no placement is ever reported
        // twice: an accepted match's own cell is zeroed before the
        // next search
        forall|i: int, j: int|
            threshold > 0 && 0 <= i < j < r@.len() ==> ((#[trigger] r@[i]) matches Ok(a) ==> ((
            #[trigger] r@[j]) matches Ok(b) ==> !(a.0.x == b.0.x && a.0.y == b.0.y))),
        // a cell clearing the threshold outside the first accepted
        // match's footprint forces a second accepted match
        spec_attempt_cap(max_matches as int) >= 2 ==> (r@[0] matches Ok(m) ==> ((exists|
            qx: int,
            qy: int,
        |
            0 <= qx < map.spec_width() && 0 <= qy < map.spec_height() && #[trigger] map.val(qx, qy)
                >= threshold && !(m.0.x - offset.x <= qx < m.0.x - offset.x + template_width
                && m.0.y - offset.y <= qy < m.0.y - offset.y + template_height)) ==> r@.len() >= 2
            && r@[1] is Ok)),
        // conversely, a second accepted match under a positive
        // threshold means such a cell exists
        spec_attempt_cap(max_matches as int) >= 2 && threshold > 0 ==> (r@[0] matches Ok(m) ==> (
        r@.len() >= 2 && r@[1] is Ok ==> exists|qx: int, qy: int|
            0 <= qx < map.spec_width() && 0 <= qy < map.spec_height() && #[trigger] map.val(qx, qy)
                >= threshold && !(m.0.x - offset.x <= qx < m.0.x - offset.x + template_width
                && m.0.y - offset.y <= qy < m.0.y - offset.y + template_height))),
{
    let mut map = map;
    let ghost orig = map;
    let cap: usize = if max_matches < 1 {
        1
    } else {
        max_matches
    };
    let mut out: Vec<Result<(Rect, i32), DetectError>> = Vec::new();
    let mut i: usize = 0;
    let mut failed = false;
    while i < cap && !failed
        invariant
            map.wf(),
            map.spec_width() == orig.spec_width(),
            map.spec_height() == orig.spec_height(),
            0 < template_width <= 1_000_000,
            0 < template_height <= 1_000_000,
            0 <= offset.x <= 1_000_000,
            0 <= offset.y <= 1_000_000,
            cap == spec_attempt_cap(max_matches as int),
            i <= cap,
            i == 0 ==> map == orig,
            out@.len() == i,
            !failed ==> forall|j: int| 0 <= j < out@.len() ==> out@[j] is Ok,
            failed ==> out@.len() >= 1 && out@[out@.len() - 1] is Err,
            out@.len() >= 1 ==> spec_single_match(
                orig,
                template_width,
                template_height,
                offset,
                threshold,
                out@[0],
            ),
            forall|j: int|
                0 <= j < out@.len() && out@[j] is Err ==> j == out@.len() - 1 && ((
                #[trigger] out@[j]) matches Err(DetectError::NotFound(s)) && s < threshold),
            forall|j: int|
                0 <= j < out@.len() ==> ((#[trigger] out@[j]) matches Ok((rect, score)) ==> {
                    &&& score >= threshold
                    &&& rect.wf()
                    &&& rect.width == template_width
                    &&& rect.height == template_height
                    &&& offset.x <= rect.x < offset.x + orig.spec_width()
                    &&& offset.y <= rect.y < offset.y + orig.spec_height()
                }),
            forall|i1: int, j1: int|
                threshold >= 0 && 0 <= i1 < j1 < out@.len() ==> ((#[trigger] out@[i1])
                    matches Ok(a) ==> ((#[trigger] out@[j1]) matches Ok(b) ==> b.1 <= a.1)),
            forall|cx: int, cy: int|
                threshold >= 0 && !failed && out@.len() > 0 && 0 <= cx < map.spec_width() && 0 <= cy
                    < map.spec_height() ==> (out@[out@.len() - 1] matches Ok(m) ==> #[trigger] map.val(
                    cx,
                    cy,
                ) <= m.1),
            forall|k1: int|
                threshold > 0 && 0 <= k1 < out@.len() ==> ((#[trigger] out@[k1]) matches Ok(m)
                    ==> map.val(m.0.x - offset.x, m.0.y - offset.y) == 0),
            forall|i1: int, j1: int|
                threshold > 0 && 0 <= i1 < j1 < out@.len() ==> ((#[trigger] out@[i1])
                    matches Ok(a) ==> ((#[trigger] out@[j1]) matches Ok(b) ==> !(a.0.x == b.0.x
                    && a.0.y == b.0.y))),
            forall|qx: int, qy: int|
                !failed && out@.len() == 1 && 0 <= qx < orig.spec_width() && 0 <= qy
                    < orig.spec_height() ==> (out@[0] matches Ok(m0) ==> (!(m0.0.x - offset.x <= qx
                    < m0.0.x - offset.x + template_width && m0.0.y - offset.y <= qy < m0.0.y
                    - offset.y + template_height) ==> #[trigger] map.val(qx, qy) == orig.val(
                    qx,
                    qy,
                ))),
            forall|qx: int, qy: int|
                out@.len() >= 2 && out@[1] is Err && 0 <= qx < orig.spec_width() && 0 <= qy
                    < orig.spec_height() ==> (out@[0] matches Ok(m0) ==> (!(m0.0.x - offset.x <= qx
                    < m0.0.x - offset.x + template_width && m0.0.y - offset.y <= qy < m0.0.y
                    - offset.y + template_height) ==> #[trigger] orig.val(qx, qy) < threshold)),
            forall|qx: int, qy: int|
                !failed && out@.len() == 1 && 0 <= qx < orig.spec_width() && 0 <= qy
                    < orig.spec_height() ==> (out@[0] matches Ok(m0) ==> (m0.0.x - offset.x <= qx
                    < m0.0.x - offset.x + template_width && m0.0.y - offset.y <= qy < m0.0.y
                    - offset.y + template_height ==> #[trigger] map.val(qx, qy) == 0)),
            threshold > 0 && out@.len() >= 2 && out@[1] is Ok ==> (out@[0] matches Ok(m0)
                ==> exists|qx: int, qy: int|
                0 <= qx < orig.spec_width() && 0 <= qy < orig.spec_height()
                    && #[trigger] orig.val(qx, qy) >= threshold && !(m0.0.x - offset.x <= qx
                    < m0.0.x - offset.x + template_width && m0.0.y - offset.y <= qy < m0.0.y
                    - offset.y + template_height)),
        decreases cap - i,
    {
        let attempt = best_match(&map, template_width, template_height, offset, threshold);
        match attempt {
            Ok((rect, score)) => {
                let ghost pre = map;
                let ghost out_before = out@;
                proof {
                    let (ppx, ppy) = choose|ppx: int, ppy: int|
                        {
                            &&& #[trigger] pre.is_first_peak(ppx, ppy)
                            &&& score == pre.val(ppx, ppy)
                            &&& score >= threshold
                            &&& rect == (Rect {
                                x: (offset.x + ppx) as i32,
                                y: (offset.y + ppy) as i32,
                                width: template_width,
                                height: template_height,
                            })
                        };
                    assert(ppx == rect.x - offset.x && ppy == rect.y - offset.y);
                    assert forall|cx: int, cy: int|
                        0 <= cx < pre.spec_width() && 0 <= cy < pre.spec_height() implies
                        #[trigger] pre.val(cx, cy) <= score by {}
                }
                let footprint = Rect {
                    x: rect.x - offset.x,
                    y: rect.y - offset.y,
                    width: rect.width,
                    height: rect.height,
                };
                map.suppress(footprint);
                out.push(Ok((rect, score)));
                proof {
                    let m = (rect, score);
                    assert(out@ == out_before.push(Ok::<(Rect, i32), DetectError>(m)));
                    assert(map.val(rect.x - offset.x as int, rect.y - offset.y as int) == 0);
                    if threshold > 0 && out_before.len() == 1 {
                        match out_before[0] {
                            Ok(m0) => {
                                let p1x = rect.x - offset.x as int;
                                let p1y = rect.y - offset.y as int;
                                assert(pre.val(p1x, p1y) == score);
                                assert(!(m0.0.x - offset.x <= p1x < m0.0.x - offset.x
                                    + template_width && m0.0.y - offset.y <= p1y < m0.0.y
                                    - offset.y + template_height)) by {
                                    if m0.0.x - offset.x <= p1x < m0.0.x - offset.x
                                        + template_width && m0.0.y - offset.y <= p1y < m0.0.y
                                        - offset.y + template_height {
                                        assert(pre.val(p1x, p1y) == 0);
                                    }
                                }
                                assert(orig.val(p1x, p1y) == pre.val(p1x, p1y));
                                assert(orig.val(p1x, p1y) >= threshold);
                            },
                            Err(_) => {
                            },
                        }
                    }
                    if threshold > 0 {
                        assert forall|k1: int|
                            0 <= k1 < out@.len() implies ((#[trigger] out@[k1]) matches Ok(a)
                            ==> map.val(a.0.x - offset.x, a.0.y - offset.y) == 0) by {
                            if k1 < out_before.len() {
                                assert(out@[k1] == out_before[k1]);
                            }
                        }
                        assert forall|i1: int, j1: int|
                            0 <= i1 < j1 < out@.len() implies ((#[trigger] out@[i1])
                            matches Ok(a) ==> ((#[trigger] out@[j1]) matches Ok(b) ==> !(a.0.x
                            == b.0.x && a.0.y == b.0.y))) by {
                            if j1 < out_before.len() {
                                assert(out@[i1] == out_before[i1]);
                                assert(out@[j1] == out_before[j1]);
                            } else {
                                assert(out@[i1] == out_before[i1]);
                                match out_before[i1] {
                                    Ok(a) => {
                                        assert(pre.val(a.0.x - offset.x, a.0.y - offset.y) == 0);
                                        assert(pre.val(
                                            rect.x - offset.x as int,
                                            rect.y - offset.y as int,
                                        ) == score);
                                        assert(score >= threshold);
                                    },
                                    Err(_) => {
                                    },
                                }
                            }
                        }
                    }
                    if threshold >= 0 {
                        assert forall|i1: int, j1: int|
                            0 <= i1 < j1 < out@.len() implies ((#[trigger] out@[i1])
                            matches Ok(a) ==> ((#[trigger] out@[j1]) matches Ok(b) ==> b.1
                            <= a.1)) by {
                            if j1 < out_before.len() {
                                assert(out@[i1] == out_before[i1]);
                                assert(out@[j1] == out_before[j1]);
                            } else {
                                assert(out@[i1] == out_before[i1]);
                                match (out_before[i1], out_before[out_before.len() - 1]) {
                                    (Ok(a), Ok(last)) => {
                                        assert(pre.val(
                                            rect.x - offset.x as int,
                                            rect.y - offset.y as int,
                                        ) <= last.1);
                                        assert(last.1 <= a.1);
                                    },
                                    _ => {
                                    },
                                }
                            }
                        }
                    }
                }
            },
            Err(e) => {
                proof {
                    if out@.len() == 1 {
                        match e {
                            DetectError::NotFound(best) => {
                                let (ppx, ppy) = choose|ppx: int, ppy: int|
                                    #[trigger] map.is_first_peak(ppx, ppy) && best == map.val(
                                        ppx,
                                        ppy,
                                    );
                                assert forall|qx: int, qy: int|
                                    0 <= qx < orig.spec_width() && 0 <= qy
                                        < orig.spec_height() implies #[trigger] map.val(qx, qy)
                                    < threshold by {}
                                assert forall|qx: int, qy: int|
                                    0 <= qx < orig.spec_width() && 0 <= qy
                                        < orig.spec_height() implies (out@[0] matches Ok(m0) ==> (
                                !(m0.0.x - offset.x <= qx < m0.0.x - offset.x + template_width
                                    && m0.0.y - offset.y <= qy < m0.0.y - offset.y
                                    + template_height) ==> #[trigger] orig.val(qx, qy)
                                    < threshold)) by {
                                    assert(map.val(qx, qy) < threshold);
                                }
                            },
                            _ => {
                            },
                        }
                    }
                }
                out.push(Err(e));
                failed = true;
            },
        }
        i += 1;
    }
    out
}

/// Distinct in-range positions have distinct row-major indices.
proof fn lemma_row_major_injective(x1: int, y1: int, x2: int, y2: int, w: int)
    requires
        0 <= x1 < w,
        0 <= x2 < w,
        !(x1 == x2 && y1 == y2),
    ensures
        y1 * w + x1 != y2 * w + x2,
{
    if y1 == y2 {
    } else {
        assert(y1 * w + x1 != y2 * w + x2) by (nonlinear_arith)
            requires
                0 <= x1 < w,
                0 <= x2 < w,
                y1 != y2,
        ;
    }
}

} // verus!

//! The minimap locator: from neural candidates and contour geometry to
//! a tight minimap rectangle.
//!
//! The locator runs in two verified stages around one outside step.
//! First [`minimap_candidate`] picks the most confident neural
//! detection, remaps it to frame coordinates and expands it outward so
//! the minimap's white border is inside. The caller then crops the
//! frame to that rectangle, binarizes it and extracts external
//! contours. Second, [`minimap_from_contours`] selects the largest
//! contour, validates it against the expanded rectangle, votes on the
//! border thickness column by column, and shrinks the contour by the
//! voted thickness. A failure at any gate is `MinimapNotFound`.

use vstd::prelude::*;

use crate::decode::{
    best_candidate, remap_detection, spec_is_last_argmax, spec_remap_rect, RawDetection,
    CONFIDENCE_FLOOR,
};
use crate::error::DetectError;
use crate::geometry::{spec_and, Rect};
use crate::image::Image;

verus! {

/// How much larger than the selected contour the expanded candidate
/// must be, in pixels of area, for the contour to count as tight.
pub const MIN_AREA_DELTA: i64 = 1100;

/// The outward expansion margin: the larger candidate side times
/// `0.008`, rounded up.
pub open spec fn spec_expand_margin(bbox: Rect) -> int {
    let m = if bbox.width >= bbox.height {
        bbox.width as int
    } else {
        bbox.height as int
    };
    (m * 8 + 999) / 1000
}

/// The candidate grown by the margin on each side, stopped at the
/// frame's top-left edges.
pub open spec fn spec_expanded(bbox: Rect) -> Rect {
    let count = spec_expand_margin(bbox);
    let x = if bbox.x - count >= 0 {
        bbox.x - count
    } else {
        0
    };
    let y = if bbox.y - count >= 0 {
        bbox.y - count
    } else {
        0
    };
    Rect {
        x: x as i32,
        y: y as i32,
        width: (bbox.width + (bbox.x - x) * 2) as i32,
        height: (bbox.height + (bbox.y - y) * 2) as i32,
    }
}

/// Expand a neural candidate outward so the full white border lies
/// inside before thresholding.
pub fn expand_candidate(bbox: &Rect) -> (r: Rect)
    requires
        bbox.wf(),
        bbox.right() <= 1_000_000,
        bbox.bottom() <= 1_000_000,
    ensures
        r == spec_expanded(*bbox),
        r.wf(),
        r.spec_contains_rect(*bbox),
        r.right() <= 1_100_000,
        r.bottom() <= 1_100_000,
{
    let m = if bbox.width >= bbox.height {
        bbox.width
    } else {
        bbox.height
    };
    let count = (m * 8 + 999) / 1000;
    let x = if bbox.x - count >= 0 {
        bbox.x - count
    } else {
        0
    };
    let y = if bbox.y - count >= 0 {
        bbox.y - count
    } else {
        0
    };
    Rect { x, y, width: bbox.width + (bbox.x - x) * 2, height: bbox.height + (bbox.y - y) * 2 }
}

/// Pick the highest-confidence candidate; fail unless it clears the
/// confidence floor; remap it to frame coordinates and expand it.
pub fn minimap_candidate(
    dets: &Vec<RawDetection>,
    frame_width: i32,
    frame_height: i32,
    w_num: i32,
    w_den: i32,
    h_num: i32,
    h_den: i32,
) -> (r: Result<Rect, DetectError>)
    requires
        forall|i: int| 0 <= i < dets@.len() ==> (#[trigger] dets@[i]).wf(),
        0 < frame_width <= 1_000_000,
        0 < frame_height <= 1_000_000,
        0 <= w_num <= 1_000_000,
        0 < w_den <= 1_000_000,
        0 <= h_num <= 1_000_000,
        0 < h_den <= 1_000_000,
    ensures
        r matches Err(e) ==> e == DetectError::MinimapNotFound,
        r is Err <==> (dets@.len() == 0 || exists|i: int|
            #[trigger] spec_is_last_argmax(dets@, i) && dets@[i].confidence < CONFIDENCE_FLOOR),
        r matches Ok(expanded) ==> exists|i: int|
            {
                &&& #[trigger] spec_is_last_argmax(dets@, i)
                &&& dets@[i].confidence >= CONFIDENCE_FLOOR
                &&& expanded == spec_expanded(
                    spec_remap_rect(
                        dets@[i],
                        frame_width as int,
                        frame_height as int,
                        w_num as int,
                        w_den as int,
                        h_num as int,
                        h_den as int,
                    ),
                )
                &&& expanded.wf()
            },
{
    let best = match best_candidate(dets) {
        Some(i) => i,
        None => {
            return Err(DetectError::MinimapNotFound);
        },
    };
    if dets[best].confidence < CONFIDENCE_FLOOR {
        return Err(DetectError::MinimapNotFound);
    }
    let bbox = remap_detection(&dets[best], frame_width, frame_height, w_num, w_den, h_num, h_den);
    Ok(expand_candidate(&bbox))
}

/// The index `pick_largest_contour` picks: the bounding rectangle with
/// the largest area, the last one when several tie.
pub open spec fn spec_is_last_largest(s: Seq<Rect>, i: int) -> bool {
    &&& 0 <= i < s.len()
    &&& forall|k: int|
        0 <= k < s.len() ==> (#[trigger] s[k]).width * s[k].height <= s[i].width * s[i].height
    &&& forall|k: int|
        i < k < s.len() ==> (#[trigger] s[k]).width * s[k].height < s[i].width * s[i].height
}

/// The contour bounding rectangle with the maximum area (the last on a
/// tie), or `None` when there is no contour.
pub fn pick_largest_contour(contours: &Vec<Rect>) -> (r: Option<usize>)
    requires
        forall|i: int| 0 <= i < contours@.len() ==> (#[trigger] contours@[i]).wf(),
    ensures
        match r {
            Some(i) => spec_is_last_largest(contours@, i as int),
            None => contours@.len() == 0,
        },
{
    if contours.len() == 0 {
        return None;
    }
    let mut best: usize = 0;
    let mut best_area: i64 = contours[0].area();
    let mut k: usize = 1;
    while k < contours.len()
        invariant
            forall|i: int| 0 <= i < contours@.len() ==> (#[trigger] contours@[i]).wf(),
            contours@.len() > 0,
            best < k <= contours@.len(),
            best_area == contours@[best as int].width * contours@[best as int].height,
            forall|j: int|
                0 <= j < k ==> (#[trigger] contours@[j]).width * contours@[j].height <= best_area,
            forall|j: int|
                best < j < k ==> (#[trigger] contours@[j]).width * contours@[j].height < best_area,
        decreases contours@.len() - k,
    {
        let a = contours[k].area();
        if a >= best_area {
            best = k;
            best_area = a;
        }
        k += 1;
    }
    Some(best)
}

/// Only one index can be the last largest contour.
proof fn lemma_last_largest_unique(s: Seq<Rect>, i: int, j: int)
    requires
        spec_is_last_largest(s, i),
        spec_is_last_largest(s, j),
    ensures
        i == j,
{
    if i < j {
        assert(s[j].width * s[j].height < s[i].width * s[i].height);
        assert(s[i].width * s[i].height <= s[j].width * s[j].height);
    }
    if j < i {
        assert(s[i].width * s[i].height < s[j].width * s[j].height);
        assert(s[j].width * s[j].height <= s[i].width * s[i].height);
    }
}

/// A crop-local contour translated back to frame coordinates by the
/// expanded rectangle's top-left corner.
pub open spec fn spec_translated(contour: Rect, expanded: Rect) -> Rect {
    Rect {
        x: (contour.x + expanded.x) as i32,
        y: (contour.y + expanded.y) as i32,
        width: contour.width,
        height: contour.height,
    }
}

/// The validation gate: the translated contour must be exactly its own
/// intersection with the expanded rectangle (it lies inside), and the
/// area difference must reach [`MIN_AREA_DELTA`], else the contour is
/// too close to the expansion to be a tight border.
pub open spec fn spec_validated(expanded: Rect, contour: Rect) -> bool {
    let t = spec_translated(contour, expanded);
    &&& spec_and(expanded, t) == t
    &&& expanded.width * expanded.height - t.width * t.height >= MIN_AREA_DELTA
}

/// Translate the selected contour to frame coordinates and validate
/// it, or reject the detection.
pub fn validate_contour(expanded: &Rect, contour: &Rect) -> (r: Option<Rect>)
    requires
        expanded.wf(),
        contour.wf(),
        expanded.right() <= 1_100_000,
        expanded.bottom() <= 1_100_000,
        contour.right() <= 1_100_000,
        contour.bottom() <= 1_100_000,
        contour.width >= 1,
        contour.height >= 1,
    ensures
        r == if spec_validated(*expanded, *contour) {
            Some(spec_translated(*contour, *expanded))
        } else {
            None::<Rect>
        },
        r matches Some(t) ==> t.wf() && expanded.spec_contains_rect(t),
{
    let t = Rect {
        x: contour.x + expanded.x,
        y: contour.y + expanded.y,
        width: contour.width,
        height: contour.height,
    };
    let inter = expanded.and(&t);
    let contained = inter.x == t.x && inter.y == t.y && inter.width == t.width && inter.height
        == t.height;
    if contained && expanded.area() - t.area() >= MIN_AREA_DELTA {
        Some(t)
    } else {
        None
    }
}

/// All four channel samples at `(x, y)` meet the border brightness.
pub open spec fn spec_bright(im: Image, x: int, y: int, thr: int) -> bool {
    forall|c: int| 0 <= c < im.spec_channels() ==> im.val(x, y, c) >= thr
}

/// How many contiguous rows, from `y` down to `y_end`, are bright in
/// column `x`; the count stops at the first row that is not.
pub open spec fn spec_bright_run(im: Image, x: int, y: int, y_end: int, thr: int) -> int
    decreases y_end - y,
{
    if y >= y_end {
        0
    } else if spec_bright(im, x, y, thr) {
        1 + spec_bright_run(im, x, y + 1, y_end, thr)
    } else {
        0
    }
}

/// How many sampled columns in `[c0, c1)` have bright run `k`.
pub open spec fn spec_run_freq(
    im: Image,
    y0: int,
    y1: int,
    thr: int,
    c0: int,
    c1: int,
    k: int,
) -> int
    decreases c1 - c0,
{
    if c1 <= c0 {
        0
    } else {
        spec_run_freq(im, y0, y1, thr, c0, c1 - 1, k) + if spec_bright_run(im, c1 - 1, y0, y1, thr)
            == k {
            1int
        } else {
            0int
        }
    }
}

/// `r` is the voted border thickness over columns `[c0, c1)` and rows
/// `[y0, y1)`: the most frequent run length, the smallest on a tie.
pub open spec fn spec_is_border_vote(
    im: Image,
    y0: int,
    y1: int,
    thr: int,
    c0: int,
    c1: int,
    height: int,
    r: int,
) -> bool {
    &&& 0 <= r <= height
    &&& forall|k: int|
        0 <= k <= height ==> #[trigger] spec_run_freq(im, y0, y1, thr, c0, c1, k) <= spec_run_freq(
            im,
            y0,
            y1,
            thr,
            c0,
            c1,
            r,
        )
    &&& forall|k: int|
        0 <= k < r ==> #[trigger] spec_run_freq(im, y0, y1, thr, c0, c1, k) < spec_run_freq(
            im,
            y0,
            y1,
            thr,
            c0,
            c1,
            r,
        )
}

/// The first sampled column: the contour's left edge plus a tenth of
/// its width, trimming the rounded corner.
pub open spec fn spec_sample_start(contour: Rect) -> int {
    contour.x + contour.width / 10
}

/// One past the last sampled column, trimmed on the right and stopped
/// at the frame's edge.
pub open spec fn spec_sample_end(contour: Rect, im: Image) -> int {
    let e = contour.right() - contour.width / 10 + 1;
    if e <= im.spec_width() {
        e
    } else {
        im.spec_width()
    }
}

fn is_bright(im: &Image, x: usize, y: usize, thr: u8) -> (r: bool)
    requires
        im.wf(),
        x < im.spec_width(),
        y < im.spec_height(),
    ensures
        r == spec_bright(*im, x as int, y as int, thr as int),
{
    let mut c: usize = 0;
    while c < im.channels()
        invariant
            im.wf(),
            x < im.spec_width(),
            y < im.spec_height(),
            c <= im.spec_channels(),
            forall|cc: int| 0 <= cc < c ==> im.val(x as int, y as int, cc) >= thr,
        decreases im.spec_channels() - c,
    {
        if im.at(x, y, c) < thr {
            return false;
        }
        c += 1;
    }
    true
}

fn run_length(im: &Image, x: usize, y0: usize, y1: usize, thr: u8) -> (r: usize)
    requires
        im.wf(),
        x < im.spec_width(),
        y0 <= y1 <= im.spec_height(),
    ensures
        r == spec_bright_run(*im, x as int, y0 as int, y1 as int, thr as int),
        r <= y1 - y0,
{
    let mut y: usize = y0;
    while y < y1 && is_bright(im, x, y, thr)
        invariant
            im.wf(),
            x < im.spec_width(),
            y0 <= y <= y1 <= im.spec_height(),
            spec_bright_run(*im, x as int, y0 as int, y1 as int, thr as int) == (y - y0)
                + spec_bright_run(*im, x as int, y as int, y1 as int, thr as int),
            forall|yy: int| y0 <= yy < y ==> spec_bright(*im, x as int, yy, thr as int),
        decreases y1 - y,
    {
        y += 1;
    }
    y - y0
}

/// Vote on the border thickness: for each sampled column, count the
/// contiguous bright rows from the contour's top edge; the most
/// frequent count wins, the smallest count on a tie.
pub fn border_vote(im: &Image, contour: &Rect, border_threshold: u8) -> (r: i32)
    requires
        im.wf(),
        contour.wf(),
        contour.right() <= im.spec_width(),
        contour.bottom() <= im.spec_height(),
        contour.width >= 1,
    ensures
        spec_is_border_vote(
            *im,
            contour.y as int,
            contour.bottom(),
            border_threshold as int,
            spec_sample_start(*contour),
            spec_sample_end(*contour, *im),
            contour.height as int,
            r as int,
        ),
        0 <= r <= contour.height,
{
    let range = contour.width / 10;
    proof {
        vstd::arithmetic::div_mod::lemma_fundamental_div_mod(contour.width as int, 10);
        vstd::arithmetic::div_mod::lemma_div_pos_is_pos(contour.width as int, 10);
    }
    let start: usize = (contour.x + range) as usize;
    let end0: i32 = contour.x + contour.width - range + 1;
    let end: usize = if end0 as usize <= im.width() {
        end0 as usize
    } else {
        im.width()
    };
    assert(start < end);
    let y0: usize = contour.y as usize;
    let y1: usize = (contour.y + contour.height) as usize;
    let h: usize = contour.height as usize;
    let mut counts: Vec<u32> = Vec::new();
    let mut z: usize = 0;
    while z < h + 1
        invariant
            h < 0x8000_0000,
            z <= h + 1,
            counts@.len() == z,
            forall|k: int| 0 <= k < z ==> counts@[k] == 0,
        decreases h + 1 - z,
    {
        counts.push(0);
        z += 1;
    }
    let ghost c0 = start as int;
    let mut col: usize = start;
    while col < end
        invariant
            im.wf(),
            contour.wf(),
            contour.right() <= im.spec_width(),
            contour.bottom() <= im.spec_height(),
            contour.width >= 1,
            c0 == spec_sample_start(*contour),
            start <= col <= end,
            end == spec_sample_end(*contour, *im),
            start as int == c0,
            y0 == contour.y,
            y1 == contour.bottom(),
            h == contour.height,
            counts@.len() == h + 1,
            forall|k: int|
                0 <= k <= h ==> counts@[k] == spec_run_freq(
                    *im,
                    y0 as int,
                    y1 as int,
                    border_threshold as int,
                    c0,
                    col as int,
                    k,
                ),
            forall|k: int| 0 <= k <= h ==> counts@[k] <= col - start,
        decreases end - col,
    {
        let run = run_length(im, col, y0, y1, border_threshold);
        let ghost counts_before = counts@;
        let prev = counts[run];
        counts.set(run, prev + 1);
        proof {
            assert forall|k: int|
                0 <= k <= h implies counts@[k] == spec_run_freq(
                *im,
                y0 as int,
                y1 as int,
                border_threshold as int,
                c0,
                col + 1,
                k,
            ) by {
                assert(spec_run_freq(
                    *im,
                    y0 as int,
                    y1 as int,
                    border_threshold as int,
                    c0,
                    col + 1,
                    k,
                ) == spec_run_freq(
                    *im,
                    y0 as int,
                    y1 as int,
                    border_threshold as int,
                    c0,
                    col as int,
                    k,
                ) + if spec_bright_run(*im, col as int, y0 as int, y1 as int, border_threshold as int)
                    == k {
                    1int
                } else {
                    0int
                });
            }
        }
        col += 1;
    }
    let mut vote: usize = 0;
    let mut k: usize = 1;
    while k < counts.len()
        invariant
            im.wf(),
            contour.wf(),
            c0 == spec_sample_start(*contour),
            end == spec_sample_end(*contour, *im),
            y0 == contour.y,
            y1 == contour.bottom(),
            h == contour.height,
            counts@.len() == h + 1,
            forall|j: int|
                0 <= j <= h ==> counts@[j] == spec_run_freq(
                    *im,
                    y0 as int,
                    y1 as int,
                    border_threshold as int,
                    c0,
                    end as int,
                    j,
                ),
            vote < k <= counts@.len(),
            forall|j: int| 0 <= j < k ==> counts@[j] <= counts@[vote as int],
            forall|j: int| 0 <= j < vote ==> counts@[j] < counts@[vote as int],
        decreases counts@.len() - k,
    {
        if counts[k] > counts[vote] {
            vote = k;
        }
        k += 1;
    }
    proof {
        let thr = border_threshold as int;
        let hh = contour.height as int;
        let ce = end as int;
        let ys = contour.y as int;
        let ye = contour.bottom();
        assert(0 <= vote <= hh);
        assert forall|kk: int| 0 <= kk <= hh implies #[trigger] spec_run_freq(
            *im,
            ys,
            ye,
            thr,
            c0,
            ce,
            kk,
        ) <= spec_run_freq(*im, ys, ye, thr, c0, ce, vote as int) by {
            assert(counts@[kk] == spec_run_freq(*im, ys, ye, thr, c0, ce, kk));
            assert(counts@[vote as int] == spec_run_freq(*im, ys, ye, thr, c0, ce, vote as int));
            assert(counts@[kk] <= counts@[vote as int]);
        }
        assert forall|kk: int| 0 <= kk < vote implies #[trigger] spec_run_freq(
            *im,
            ys,
            ye,
            thr,
            c0,
            ce,
            kk,
        ) < spec_run_freq(*im, ys, ye, thr, c0, ce, vote as int) by {
            assert(counts@[kk] == spec_run_freq(*im, ys, ye, thr, c0, ce, kk));
            assert(counts@[vote as int] == spec_run_freq(*im, ys, ye, thr, c0, ce, vote as int));
            assert(counts@[kk] < counts@[vote as int]);
        }
    }
    vote as i32
}

/// Uniform borders vote exactly: when every sampled column has the
/// same bright run `b`, the voted thickness is `b` and nothing else.
pub proof fn lemma_uniform_border_vote(
    im: Image,
    y0: int,
    y1: int,
    thr: int,
    c0: int,
    c1: int,
    height: int,
    b: int,
)
    requires
        c0 < c1,
        0 <= b <= height,
        forall|c: int| c0 <= c < c1 ==> spec_bright_run(im, c, y0, y1, thr) == b,
    ensures
        spec_run_freq(im, y0, y1, thr, c0, c1, b) == c1 - c0,
        forall|k: int| k != b ==> spec_run_freq(im, y0, y1, thr, c0, c1, k) == 0,
        forall|r: int| spec_is_border_vote(im, y0, y1, thr, c0, c1, height, r) ==> r == b,
        spec_is_border_vote(im, y0, y1, thr, c0, c1, height, b),
{
    lemma_uniform_freq(im, y0, y1, thr, c0, c1, b);
    assert forall|r: int| spec_is_border_vote(im, y0, y1, thr, c0, c1, height, r) implies r
        == b by {
        assert(spec_run_freq(im, y0, y1, thr, c0, c1, b) <= spec_run_freq(
            im,
            y0,
            y1,
            thr,
            c0,
            c1,
            r,
        ));
    }
}

proof fn lemma_uniform_freq(im: Image, y0: int, y1: int, thr: int, c0: int, c1: int, b: int)
    requires
        c0 <= c1,
        forall|c: int| c0 <= c < c1 ==> spec_bright_run(im, c, y0, y1, thr) == b,
    ensures
        spec_run_freq(im, y0, y1, thr, c0, c1, b) == c1 - c0,
        forall|k: int| k != b ==> spec_run_freq(im, y0, y1, thr, c0, c1, k) == 0,
    decreases c1 - c0,
{
    if c1 > c0 {
        lemma_uniform_freq(im, y0, y1, thr, c0, c1 - 1, b);
        assert forall|k: int| k != b implies spec_run_freq(im, y0, y1, thr, c0, c1, k) == 0 by {
            assert(spec_run_freq(im, y0, y1, thr, c0, c1 - 1, k) == 0);
        }
    }
}

/// The contour shrunk symmetrically by a border thickness, stopped at
/// its middle so the result stays a rectangle.
pub open spec fn spec_shrunk(contour: Rect, thickness: int) -> Rect {
    let c1 = if thickness <= contour.width / 2 {
        thickness
    } else {
        contour.width as int / 2
    };
    let c = if c1 <= contour.height / 2 {
        c1
    } else {
        contour.height as int / 2
    };
    Rect {
        x: (contour.x + c) as i32,
        y: (contour.y + c) as i32,
        width: (contour.width - 2 * c) as i32,
        height: (contour.height - 2 * c) as i32,
    }
}

/// Shrink the contour symmetrically by the voted border thickness,
/// never past its middle, so the result stays a rectangle inside the
/// contour.
pub fn shrink_by_border(contour: &Rect, thickness: i32) -> (r: Rect)
    requires
        contour.wf(),
        0 <= thickness,
    ensures
        r == spec_shrunk(*contour, thickness as int),
        ({
            let c1 = if thickness <= contour.width / 2 {
                thickness as int
            } else {
                contour.width as int / 2
            };
            let c = if c1 <= contour.height / 2 {
                c1
            } else {
                contour.height as int / 2
            };
            r == (Rect {
                x: (contour.x + c) as i32,
                y: (contour.y + c) as i32,
                width: (contour.width - 2 * c) as i32,
                height: (contour.height - 2 * c) as i32,
            })
        }),
        r.wf(),
        contour.spec_contains_rect(r),
{
    let mut c = thickness;
    if c > contour.width / 2 {
        c = contour.width / 2;
    }
    if c > contour.height / 2 {
        c = contour.height / 2;
    }
    Rect {
        x: contour.x + c,
        y: contour.y + c,
        width: contour.width - 2 * c,
        height: contour.height - 2 * c,
    }
}

/// The second locator stage: select the largest contour of the
/// binarized crop, validate it against the expanded candidate, vote on
/// the border thickness and shrink by it. A successful run's rectangle
/// always lies inside the expanded candidate rectangle.
pub fn minimap_from_contours(
    expanded: &Rect,
    contours: &Vec<Rect>,
    im: &Image,
    border_threshold: u8,
) -> (r: Result<Rect, DetectError>)
    requires
        expanded.wf(),
        expanded.right() <= 1_100_000,
        expanded.bottom() <= 1_100_000,
        im.wf(),
        im.spec_channels() == 4,
        forall|i: int|
            0 <= i < contours@.len() ==> (#[trigger] contours@[i]).wf() && contours@[i].width >= 1
                && contours@[i].height >= 1 && contours@[i].right() <= 1_100_000
                && contours@[i].bottom() <= 1_100_000,
    ensures
        r matches Err(e) ==> e == DetectError::MinimapNotFound,
        r is Err <==> (contours@.len() == 0 || exists|i: int|
            #[trigger] spec_is_last_largest(contours@, i) && (!spec_validated(
                *expanded,
                contours@[i],
            ) || spec_translated(contours@[i], *expanded).right() > im.spec_width()
                || spec_translated(contours@[i], *expanded).bottom() > im.spec_height())),
        r matches Ok(rect) ==> rect.wf() && expanded.spec_contains_rect(rect) && exists|i: int|
            {
                &&& #[trigger] spec_is_last_largest(contours@, i)
                &&& spec_validated(*expanded, contours@[i])
                &&& ({
                    let t = spec_translated(contours@[i], *expanded);
                    &&& t.right() <= im.spec_width()
                    &&& t.bottom() <= im.spec_height()
                    &&& t.spec_contains_rect(rect)
                    &&& exists|b: int|
                        #![auto]
                        {
                            &&& spec_is_border_vote(
                                *im,
                                t.y as int,
                                t.bottom(),
                                border_threshold as int,
                                spec_sample_start(t),
                                spec_sample_end(t, *im),
                                t.height as int,
                                b,
                            )
                            &&& rect == spec_shrunk(t, b)
                        }
                })
            },
{
    let chosen = match pick_largest_contour(contours) {
        Some(i) => i,
        None => {
            return Err(DetectError::MinimapNotFound);
        },
    };
    let translated = match validate_contour(expanded, &contours[chosen]) {
        Some(t) => t,
        None => {
            return Err(DetectError::MinimapNotFound);
        },
    };
    if translated.x + translated.width > im.width() as i32 || translated.y + translated.height
        > im.height() as i32 {
        return Err(DetectError::MinimapNotFound);
    }
    let thickness = border_vote(im, &translated, border_threshold);
    let rect = shrink_by_border(&translated, thickness);
    proof {
        assert forall|i: int| #[trigger] spec_is_last_largest(contours@, i) implies i
            == chosen as int by {
            lemma_last_largest_unique(contours@, i, chosen as int);
        }
    }
    Ok(rect)
}

} // verus!

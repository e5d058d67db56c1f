//! The text-region extractor: from a text-detection network's two
//! score maps to word bounding boxes.
//!
//! Both maps arrive at half the resolution of the sub-image that was
//! fed to the network. The text and link scores are binarized and
//! combined into a foreground mask, the mask is labeled into
//! 4-connected components, and each component that is large enough and
//! confident enough yields one box: its pixels minus inter-character
//! link bridges are dilated by an adaptive square element, the dilated
//! pixels' bounding rectangle is taken, and the corners are projected
//! back to the caller's coordinate space.

use vstd::prelude::*;

use crate::geometry::{Point, Rect};
use crate::template::ScoreMap;

verus! {

/// A component is kept only when the raw text score somewhere inside
/// it reaches this floor (`0.7`).
pub const TEXT_SCORE_FLOOR: i32 = 7000;

/// Binarization threshold for the text and link scores (`0.4`).
pub const LINK_SCORE_FLOOR: i32 = 4000;

/// A component is kept only when it covers at least this many pixels.
pub const MIN_COMPONENT_AREA: usize = 10;

/// A pixel of the combined binary mask: its binarized text score or
/// its binarized link score is set.
pub open spec fn spec_foreground(text: ScoreMap, link: ScoreMap, x: int, y: int) -> bool {
    text.val(x, y) >= LINK_SCORE_FLOOR || link.val(x, y) >= LINK_SCORE_FLOOR
}

/// An inter-character link bridge: linked, yet with a text score of
/// exactly zero. Bridges are removed from a component before its box
/// is taken, so adjacent words do not merge.
pub open spec fn spec_bridge(text: ScoreMap, link: ScoreMap, x: int, y: int) -> bool {
    link.val(x, y) >= LINK_SCORE_FLOOR && text.val(x, y) == 0
}

/// How many entries of a label grid are still zero.
pub open spec fn spec_count_zeros(s: Seq<u32>) -> int
    decreases s.len(),
{
    if s.len() == 0 {
        0
    } else {
        spec_count_zeros(s.drop_last()) + if s.last() == 0 {
            1int
        } else {
            0int
        }
    }
}

proof fn lemma_count_zeros_bounds(s: Seq<u32>)
    ensures
        0 <= spec_count_zeros(s) <= s.len(),
    decreases s.len(),
{
    if s.len() > 0 {
        lemma_count_zeros_bounds(s.drop_last());
    }
}

proof fn lemma_count_zeros_update(s: Seq<u32>, i: int, v: u32)
    requires
        0 <= i < s.len(),
        s[i] == 0,
        v != 0,
    ensures
        spec_count_zeros(s.update(i, v)) == spec_count_zeros(s) - 1,
    decreases s.len(),
{
    let t = s.update(i, v);
    if i == s.len() - 1 {
        assert(t.drop_last() == s.drop_last());
        assert(t.last() == v);
        assert(s.last() == s[i]);
    } else {
        assert(t.drop_last() == s.drop_last().update(i, v));
        assert(t.last() == s.last());
        lemma_count_zeros_update(s.drop_last(), i, v);
    }
}

/// Distinct in-range positions have distinct row-major indices.
proof fn lemma_grid_injective(x1: int, y1: int, x2: int, y2: int, w: int)
    requires
        0 <= x1 < w,
        0 <= x2 < w,
        !(x1 == x2 && y1 == y2),
    ensures
        y1 * w + x1 != y2 * w + x2,
{
    if y1 == y2 {
    } else {
        assert(y1 * w + x1 != y2 * w + x2) by (nonlinear_arith)
            requires
                0 <= x1 < w,
                0 <= x2 < w,
                y1 != y2,
        ;
    }
}

proof fn lemma_grid_index(x: int, y: int, w: int, h: int)
    requires
        0 <= x < w,
        0 <= y < h,
        0 < w <= 0x8000,
        0 < h <= 0x8000,
    ensures
        0 <= y * w + x < w * h,
        y * w + x < 0x4000_0000,
    {
    vstd::arithmetic::mul::lemma_mul_nonnegative(y, w);
    vstd::arithmetic::mul::lemma_mul_inequality(y, h - 1, w);
    assert((h - 1) * w == h * w - w) by (nonlinear_arith);
    assert(h * w == w * h) by (nonlinear_arith);
    vstd::arithmetic::mul::lemma_mul_upper_bound(h, 0x8000, w, 0x8000);
}

/// A 4-connected component labeling of the combined mask of the two
/// score maps: label zero is background, labels `1..count()` are
/// components.
pub struct Components {
    labels: Vec<u32>,
    width: usize,
    height: usize,
    count: u32,
}

impl Components {
    pub closed spec fn spec_width(self) -> int {
        self.width as int
    }

    pub closed spec fn spec_height(self) -> int {
        self.height as int
    }

    /// The labels, row-major.
    pub closed spec fn grid(self) -> Seq<u32> {
        self.labels@
    }

    /// One past the largest label in use.
    pub closed spec fn spec_count(self) -> int {
        self.count as int
    }

    /// The label at column `x`, row `y`.
    pub open spec fn label_at(self, x: int, y: int) -> int {
        self.grid()[y * self.spec_width() + x] as int
    }

    pub open spec fn wf(self) -> bool {
        &&& self.grid().len() == self.spec_width() * self.spec_height()
        &&& 0 < self.spec_width() <= 0x8000
        &&& 0 < self.spec_height() <= 0x8000
        &&& 1 <= self.spec_count() <= self.spec_width() * self.spec_height() + 1
        &&& forall|i: int| 0 <= i < self.grid().len() ==> (#[trigger] self.grid()[i]) < self.spec_count()
    }

    pub fn width(&self) -> (r: usize)
        ensures
            r == self.spec_width(),
    {
        self.width
    }

    pub fn height(&self) -> (r: usize)
        ensures
            r == self.spec_height(),
    {
        self.height
    }

    /// One past the largest label in use; labels `1..count` name the
    /// components.
    pub fn count(&self) -> (r: u32)
        ensures
            r == self.spec_count(),
    {
        self.count
    }

    pub fn label(&self, x: usize, y: usize) -> (r: u32)
        requires
            self.wf(),
            x < self.spec_width(),
            y < self.spec_height(),
        ensures
            r == self.label_at(x as int, y as int),
    {
        proof {
            lemma_grid_index(x as int, y as int, self.spec_width(), self.spec_height());
        }
        self.labels[y * self.width + x]
    }
}

/// Labeled pixels are exactly the foreground pixels.
pub open spec fn spec_labeling_matches(text: ScoreMap, link: ScoreMap, c: Components) -> bool {
    &&& c.spec_width() == text.spec_width()
    &&& c.spec_height() == text.spec_height()
    &&& forall|x: int, y: int|
        0 <= x < c.spec_width() && 0 <= y < c.spec_height() ==> ((#[trigger] c.label_at(x, y))
            != 0 <==> spec_foreground(text, link, x, y))
}

/// Two grid cells are 4-adjacent.
pub open spec fn spec_adjacent(x1: int, y1: int, x2: int, y2: int) -> bool {
    (x1 == x2 && (y1 == y2 + 1 || y2 == y1 + 1)) || (y1 == y2 && (x1 == x2 + 1 || x2 == x1 + 1))
}

/// Adjacent foreground pixels never land in different components.
pub open spec fn spec_labeling_connected(text: ScoreMap, link: ScoreMap, c: Components) -> bool {
    forall|x: int, y: int, qx: int, qy: int|
        0 <= x < c.spec_width() && 0 <= y < c.spec_height() && 0 <= qx < c.spec_width() && 0 <= qy
            < c.spec_height() && #[trigger] spec_adjacent(qx, qy, x, y) && spec_foreground(
            text,
            link,
            x,
            y,
        ) && spec_foreground(text, link, qx, qy) ==> c.label_at(x, y) == c.label_at(qx, qy)
}

/// Every foreground neighbour of `(x, y)` carries its label.
pub open spec fn spec_neighbors_match(
    text: ScoreMap,
    link: ScoreMap,
    labels: Seq<u32>,
    x: int,
    y: int,
) -> bool {
    forall|qx: int, qy: int|
        0 <= qx < text.spec_width() && 0 <= qy < text.spec_height() && #[trigger] spec_adjacent(
            qx,
            qy,
            x,
            y,
        ) && spec_foreground(text, link, qx, qy) ==> labels[qy * text.spec_width() + qx]
            == labels[y * text.spec_width() + x]
}

/// `(x, y)` is queued in the walk stack.
pub open spec fn spec_in_stack(stack: Seq<(usize, usize)>, x: int, y: int) -> bool {
    exists|k: int| 0 <= k < stack.len() && (#[trigger] stack[k]).0 == x && stack[k].1 == y
}

/// The walk's running guarantee: every labeled pixel either still
/// waits in the stack or already agrees with all its foreground
/// neighbours.
pub open spec fn spec_walk_settled(
    text: ScoreMap,
    link: ScoreMap,
    labels: Seq<u32>,
    stack: Seq<(usize, usize)>,
) -> bool {
    forall|x: int, y: int|
        0 <= x < text.spec_width() && 0 <= y < text.spec_height() && #[trigger] labels[y
            * text.spec_width() + x] != 0 ==> (spec_in_stack(stack, x, y) || spec_neighbors_match(
            text,
            link,
            labels,
            x,
            y,
        ))
}

/// A 4-connected walk of at most `n` steps through foreground pixels
/// leads from `(x1, y1)` to `(x2, y2)`.
pub open spec fn spec_reaches(
    text: ScoreMap,
    link: ScoreMap,
    x1: int,
    y1: int,
    x2: int,
    y2: int,
    n: int,
) -> bool
    decreases n,
{
    &&& 0 <= x1 < text.spec_width()
    &&& 0 <= y1 < text.spec_height()
    &&& spec_foreground(text, link, x1, y1)
    &&& (x1 == x2 && y1 == y2 || (n > 0 && exists|mx: int, my: int|
        #![auto]
        spec_adjacent(mx, my, x1, y1) && spec_reaches(text, link, mx, my, x2, y2, n - 1)))
}

/// A longer walk allowance keeps every reachability fact.
proof fn lemma_reaches_mono(
    text: ScoreMap,
    link: ScoreMap,
    x1: int,
    y1: int,
    x2: int,
    y2: int,
    n1: int,
    n2: int,
)
    requires
        spec_reaches(text, link, x1, y1, x2, y2, n1),
        n1 <= n2,
    ensures
        spec_reaches(text, link, x1, y1, x2, y2, n2),
    decreases n1,
{
    if !(x1 == x2 && y1 == y2) {
        let (mx, my) = choose|mx: int, my: int|
            #![auto]
            spec_adjacent(mx, my, x1, y1) && spec_reaches(text, link, mx, my, x2, y2, n1 - 1);
        lemma_reaches_mono(text, link, mx, my, x2, y2, n1 - 1, n2 - 1);
    }
}

/// Both pixels lie in one connected region: a common cell is reached
/// from each within `n` steps.
pub open spec fn spec_same_component(
    text: ScoreMap,
    link: ScoreMap,
    x1: int,
    y1: int,
    x2: int,
    y2: int,
    n: int,
) -> bool {
    exists|sx: int, sy: int|
        #![auto]
        spec_reaches(text, link, x1, y1, sx, sy, n) && spec_reaches(text, link, x2, y2, sx, sy, n)
}

/// Pixels sharing a nonzero label always lie in one connected region:
/// distinct components never share a label.
pub open spec fn spec_labeling_separated(text: ScoreMap, link: ScoreMap, c: Components) -> bool {
    forall|x1: int, y1: int, x2: int, y2: int|
        #![trigger c.label_at(x1, y1), c.label_at(x2, y2)]
        0 <= x1 < c.spec_width() && 0 <= y1 < c.spec_height() && 0 <= x2 < c.spec_width() && 0
            <= y2 < c.spec_height() && c.label_at(x1, y1) == c.label_at(x2, y2) && c.label_at(
            x1,
            y1,
        ) != 0 ==> spec_same_component(
            text,
            link,
            x1,
            y1,
            x2,
            y2,
            text.spec_width() * text.spec_height(),
        )
}

/// Carry every pixel's walk to its seed across one step of the
/// component walk: unchanged pixels by a longer allowance, freshly
/// labeled pixels through the walked cell they are adjacent to.
proof fn lemma_reaches_after_walk(
    text: ScoreMap,
    link: ScoreMap,
    lb: Seq<u32>,
    cur: Seq<u32>,
    seeds: Seq<(int, int)>,
    cx: int,
    cy: int,
    next: u32,
    b0: int,
    b1: int,
)
    requires
        text.wf(),
        link.wf(),
        link.spec_width() == text.spec_width(),
        link.spec_height() == text.spec_height(),
        lb.len() == text.spec_width() * text.spec_height(),
        cur.len() == lb.len(),
        0 <= b0 <= b1,
        forall|x: int, y: int|
            0 <= x < text.spec_width() && 0 <= y < text.spec_height() && #[trigger] lb[y
                * text.spec_width() + x] != 0 ==> 1 <= lb[y * text.spec_width() + x]
                <= seeds.len() && spec_reaches(
                text,
                link,
                x,
                y,
                seeds[lb[y * text.spec_width() + x] - 1].0,
                seeds[lb[y * text.spec_width() + x] - 1].1,
                b0,
            ),
        forall|x: int, y: int|
            0 <= x < text.spec_width() && 0 <= y < text.spec_height()
                ==> (#[trigger] cur[y * text.spec_width() + x]) == lb[y * text.spec_width() + x]
                || (lb[y * text.spec_width() + x] == 0 && cur[y * text.spec_width() + x] == next
                && spec_adjacent(x, y, cx, cy) && spec_foreground(text, link, x, y)),
        forall|x: int, y: int|
            0 <= x < text.spec_width() && 0 <= y < text.spec_height() && #[trigger] cur[y
                * text.spec_width() + x] != lb[y * text.spec_width() + x] ==> b1 >= b0 + 1,
        0 <= cx < text.spec_width(),
        0 <= cy < text.spec_height(),
        lb[cy * text.spec_width() + cx] == next,
        1 <= next <= seeds.len(),
    ensures
        forall|x: int, y: int|
            0 <= x < text.spec_width() && 0 <= y < text.spec_height() && #[trigger] cur[y
                * text.spec_width() + x] != 0 ==> 1 <= cur[y * text.spec_width() + x]
                <= seeds.len() && spec_reaches(
                text,
                link,
                x,
                y,
                seeds[cur[y * text.spec_width() + x] - 1].0,
                seeds[cur[y * text.spec_width() + x] - 1].1,
                b1,
            ),
{
    let w = text.spec_width();
    let h = text.spec_height();
    assert forall|x: int, y: int|
        0 <= x < w && 0 <= y < h && #[trigger] cur[y * w + x] != 0 implies 1 <= cur[y * w + x]
        <= seeds.len() && spec_reaches(
        text,
        link,
        x,
        y,
        seeds[cur[y * w + x] - 1].0,
        seeds[cur[y * w + x] - 1].1,
        b1,
    ) by {
        if cur[y * w + x] == lb[y * w + x] {
            lemma_reaches_mono(
                text,
                link,
                x,
                y,
                seeds[lb[y * w + x] - 1].0,
                seeds[lb[y * w + x] - 1].1,
                b0,
                b1,
            );
        } else {
            assert(cur[y * w + x] == next);
            assert(spec_adjacent(x, y, cx, cy));
            assert(spec_adjacent(cx, cy, x, y));
            assert(spec_reaches(
                text,
                link,
                cx,
                cy,
                seeds[next - 1].0,
                seeds[next - 1].1,
                b0,
            ));
            lemma_reaches_mono(
                text,
                link,
                cx,
                cy,
                seeds[next - 1].0,
                seeds[next - 1].1,
                b0,
                b1 - 1,
            );
            assert(spec_reaches(text, link, x, y, seeds[next - 1].0, seeds[next - 1].1, b1));
        }
    }
}

/// Mark one cell if it is an unlabeled foreground pixel: give it the
/// label and queue it for its neighbours to be walked.
fn visit(
    labels: &mut Vec<u32>,
    stack: &mut Vec<(usize, usize)>,
    text: &ScoreMap,
    link: &ScoreMap,
    x: usize,
    y: usize,
    next: u32,
) -> (changed: bool)
    requires
        text.wf(),
        link.wf(),
        link.spec_width() == text.spec_width(),
        link.spec_height() == text.spec_height(),
        old(labels)@.len() == text.spec_width() * text.spec_height(),
        x < text.spec_width(),
        y < text.spec_height(),
        next != 0,
    ensures
        ({
            let idx = y * text.spec_width() + x;
            let was = old(labels)@[idx];
            if was == 0 && spec_foreground(*text, *link, x as int, y as int) {
                &&& changed
                &&& final(labels)@ == old(labels)@.update(idx, next)
                &&& final(stack)@ == old(stack)@.push((x, y))
                &&& spec_count_zeros(final(labels)@) == spec_count_zeros(old(labels)@) - 1
            } else {
                &&& !changed
                &&& final(labels)@ == old(labels)@
                &&& final(stack)@ == old(stack)@
            }
        }),
        final(labels)@.len() == old(labels)@.len(),
        changed ==> spec_foreground(*text, *link, x as int, y as int),
        forall|xx: int, yy: int|
            0 <= xx < text.spec_width() && 0 <= yy < text.spec_height()
                ==> (#[trigger] final(labels)@[yy * text.spec_width() + xx]) == if changed && xx
                == x && yy == y {
                next
            } else {
                old(labels)@[yy * text.spec_width() + xx]
            },
        forall|i: int|
            0 <= i < old(labels)@.len() ==> (#[trigger] final(labels)@[i]) == old(labels)@[i]
                || final(labels)@[i] == next,
{
    proof {
        lemma_grid_index(x as int, y as int, text.spec_width(), text.spec_height());
    }
    let idx = y * text.width() + x;
    if labels[idx] != 0 {
        return false;
    }
    let fg = text.at(x, y) >= LINK_SCORE_FLOOR || link.at(x, y) >= LINK_SCORE_FLOOR;
    if !fg {
        return false;
    }
    proof {
        lemma_count_zeros_update(labels@, idx as int, next);
    }
    let ghost before = labels@;
    labels.set(idx, next);
    stack.push((x, y));
    proof {
        let w = text.spec_width();
        let h = text.spec_height();
        assert forall|xx: int, yy: int| 0 <= xx < w && 0 <= yy < h implies (#[trigger] labels@[yy
            * w + xx]) == if xx == x && yy == y {
            next
        } else {
            before[yy * w + xx]
        } by {
            lemma_grid_index(xx, yy, w, h);
            if !(xx == x as int && yy == y as int) {
                lemma_grid_injective(xx, yy, x as int, y as int, w);
            }
        }
    }
    true
}

proof fn lemma_in_stack_extend(
    s1: Seq<(usize, usize)>,
    s2: Seq<(usize, usize)>,
    x: int,
    y: int,
)
    requires
        spec_in_stack(s1, x, y),
        s2.len() >= s1.len(),
        forall|k: int| 0 <= k < s1.len() ==> s2[k] == s1[k],
    ensures
        spec_in_stack(s2, x, y),
{
    let k = choose|k: int| 0 <= k < s1.len() && (#[trigger] s1[k]).0 == x && s1[k].1 == y;
    assert(s2[k].0 == x && s2[k].1 == y);
}

/// Compute the 4-connected component labeling of the combined binary
/// mask of the two score maps: a pixel is foreground when either map
/// clears [`LINK_SCORE_FLOOR`] there. Labeled pixels are exactly the
/// foreground pixels.
#[verifier::rlimit(100)]
pub fn label_components(text: &ScoreMap, link: &ScoreMap) -> (c: Components)
    requires
        text.wf(),
        link.wf(),
        link.spec_width() == text.spec_width(),
        link.spec_height() == text.spec_height(),
    ensures
        c.wf(),
        spec_labeling_matches(*text, *link, c),
        spec_labeling_connected(*text, *link, c),
        spec_labeling_separated(*text, *link, c),
{
    let w = text.width();
    let h = text.height();
    proof {
        vstd::arithmetic::mul::lemma_mul_nonnegative(w as int, h as int);
        vstd::arithmetic::mul::lemma_mul_upper_bound(w as int, 0x8000, h as int, 0x8000);
    }
    let total = w * h;
    let mut labels: Vec<u32> = Vec::new();
    while labels.len() < total
        invariant
            total <= 0x4000_0000,
            labels@.len() <= total,
            forall|i: int| 0 <= i < labels@.len() ==> (#[trigger] labels@[i]) == 0,
        decreases total - labels@.len(),
    {
        labels.push(0);
    }
    proof {
        lemma_count_zeros_all(labels@);
        assert forall|xx: int, yy: int| 0 <= xx < w && 0 <= yy < h implies #[trigger] labels@[yy
            * (w as int) + xx] == 0 by {
            lemma_grid_index(xx, yy, w as int, h as int);
        }
    }
    let ghost mut seeds: Seq<(int, int)> = Seq::empty();
    let mut next: u32 = 1;
    let mut y: usize = 0;
    while y < h
        invariant
            text.wf(),
            link.wf(),
            link.spec_width() == text.spec_width(),
            link.spec_height() == text.spec_height(),
            w == text.spec_width(),
            h == text.spec_height(),
            labels@.len() == w * h,
            w * h <= 0x4000_0000,
            y <= h,
            1 <= next,
            next <= 1 + (w * h - spec_count_zeros(labels@)),
            0 <= spec_count_zeros(labels@) <= labels@.len(),
            forall|i: int| 0 <= i < labels@.len() ==> (#[trigger] labels@[i]) < next,
            forall|xx: int, yy: int|
                0 <= xx < w && 0 <= yy < h && (#[trigger] labels@[yy * w + xx]) != 0
                    ==> spec_foreground(*text, *link, xx, yy),
            forall|xx: int, yy: int|
                0 <= xx < w && 0 <= yy < y && spec_foreground(*text, *link, xx, yy)
                    ==> (#[trigger] labels@[yy * w + xx]) != 0,
            spec_walk_settled(*text, *link, labels@, Seq::empty()),
            seeds.len() == next - 1,
            forall|xx: int, yy: int|
                0 <= xx < w && 0 <= yy < h && (#[trigger] labels@[yy * w + xx]) != 0 ==> 1
                    <= labels@[yy * w + xx] <= seeds.len() && spec_reaches(
                    *text,
                    *link,
                    xx,
                    yy,
                    seeds[labels@[yy * w + xx] - 1].0,
                    seeds[labels@[yy * w + xx] - 1].1,
                    w * h - spec_count_zeros(labels@),
                ),
        decreases h - y,
    {
        let mut x: usize = 0;
        while x < w
            invariant
                text.wf(),
                link.wf(),
                link.spec_width() == text.spec_width(),
                link.spec_height() == text.spec_height(),
                w == text.spec_width(),
                h == text.spec_height(),
                labels@.len() == w * h,
                w * h <= 0x4000_0000,
                y < h,
                x <= w,
                1 <= next,
                next <= 1 + (w * h - spec_count_zeros(labels@)),
                0 <= spec_count_zeros(labels@) <= labels@.len(),
                forall|i: int| 0 <= i < labels@.len() ==> (#[trigger] labels@[i]) < next,
                forall|xx: int, yy: int|
                    0 <= xx < w && 0 <= yy < h && (#[trigger] labels@[yy * w + xx]) != 0
                        ==> spec_foreground(*text, *link, xx, yy),
                forall|xx: int, yy: int|
                    0 <= xx < w && 0 <= yy < y && spec_foreground(*text, *link, xx, yy)
                        ==> (#[trigger] labels@[yy * w + xx]) != 0,
                forall|xx: int|
                    0 <= xx < x && spec_foreground(*text, *link, xx, y as int)
                        ==> (#[trigger] labels@[y as int * w + xx]) != 0,
                spec_walk_settled(*text, *link, labels@, Seq::empty()),
                seeds.len() == next - 1,
                forall|xx: int, yy: int|
                    0 <= xx < w && 0 <= yy < h && (#[trigger] labels@[yy * w + xx]) != 0 ==> 1
                        <= labels@[yy * w + xx] <= seeds.len() && spec_reaches(
                        *text,
                        *link,
                        xx,
                        yy,
                        seeds[labels@[yy * w + xx] - 1].0,
                        seeds[labels@[yy * w + xx] - 1].1,
                        w * h - spec_count_zeros(labels@),
                    ),
            decreases w - x,
        {
            let mut stack: Vec<(usize, usize)> = Vec::new();
            let ghost l_seed = labels@;
            let changed = visit(&mut labels, &mut stack, text, link, x, y, next);
            proof {
                lemma_count_zeros_bounds(labels@);
            }
            if changed {
                proof {
                    lemma_grid_index(x as int, y as int, w as int, h as int);
                    assert(stack@[0] == (x, y));
                    assert(spec_in_stack(stack@, x as int, y as int));
                    let b0 = w * h - spec_count_zeros(l_seed);
                    let b1 = w * h - spec_count_zeros(labels@);
                    lemma_count_zeros_bounds(l_seed);
                    let seeds0 = seeds;
                    seeds = seeds.push((x as int, y as int));
                    assert forall|xx: int, yy: int|
                        0 <= xx < w && 0 <= yy < h && (#[trigger] labels@[yy * w + xx])
                            != 0 implies 1 <= labels@[yy * w + xx] <= seeds.len() && spec_reaches(
                        *text,
                        *link,
                        xx,
                        yy,
                        seeds[labels@[yy * w + xx] - 1].0,
                        seeds[labels@[yy * w + xx] - 1].1,
                        b1,
                    ) by {
                        if xx == x as int && yy == y as int {
                            assert(labels@[yy * w + xx] == next);
                            assert(seeds[next - 1] == (x as int, y as int));
                            assert(spec_foreground(*text, *link, x as int, y as int));
                            assert(spec_reaches(
                                *text,
                                *link,
                                x as int,
                                y as int,
                                x as int,
                                y as int,
                                b1,
                            ));
                        } else {
                            assert(labels@[yy * w + xx] == l_seed[yy * w + xx]);
                            assert(1 <= labels@[yy * w + xx] <= seeds0.len());
                            assert(seeds[labels@[yy * w + xx] - 1] == seeds0[labels@[yy * w + xx]
                                - 1]);
                            lemma_reaches_mono(
                                *text,
                                *link,
                                xx,
                                yy,
                                seeds[labels@[yy * w + xx] - 1].0,
                                seeds[labels@[yy * w + xx] - 1].1,
                                b0,
                                b1,
                            );
                        }
                    }
                    assert forall|px: int, py: int|
                        0 <= px < w && 0 <= py < h && #[trigger] labels@[py * w + px] != 0 implies
                        (spec_in_stack(stack@, px, py) || spec_neighbors_match(
                        *text,
                        *link,
                        labels@,
                        px,
                        py,
                    )) by {
                        lemma_grid_index(px, py, w as int, h as int);
                        if px == x as int && py == y as int {
                            assert(spec_in_stack(stack@, px, py));
                        } else {
                            assert(labels@[py * w + px] == l_seed[py * w + px]);
                            assert(spec_neighbors_match(*text, *link, l_seed, px, py));
                            if spec_adjacent(x as int, y as int, px, py) {
                                assert(spec_foreground(*text, *link, x as int, y as int));
                                assert(l_seed[y as int * w + x as int] == l_seed[py * w + px]);
                                assert(false);
                            }
                            assert forall|qx: int, qy: int|
                                0 <= qx < w && 0 <= qy < h && #[trigger] spec_adjacent(
                                qx,
                                qy,
                                px,
                                py,
                            ) && spec_foreground(*text, *link, qx, qy) implies labels@[qy * w + qx]
                                == labels@[py * w + px] by {
                                lemma_grid_index(qx, qy, w as int, h as int);
                                assert(!(qx == x as int && qy == y as int));
                                assert(labels@[qy * w + qx] == l_seed[qy * w + qx]);
                                assert(l_seed[qy * w + qx] == l_seed[py * w + px]);
                            }
                        }
                    }
                }
                while stack.len() > 0
                    invariant
                        text.wf(),
                        link.wf(),
                        link.spec_width() == text.spec_width(),
                        link.spec_height() == text.spec_height(),
                        w == text.spec_width(),
                        h == text.spec_height(),
                        labels@.len() == w * h,
                        w * h <= 0x4000_0000,
                        y < h,
                        x < w,
                        1 <= next,
                        next <= w * h - spec_count_zeros(labels@),
                        0 <= spec_count_zeros(labels@) <= labels@.len(),
                        forall|i: int| 0 <= i < labels@.len() ==> (#[trigger] labels@[i]) <= next,
                        forall|xx: int, yy: int|
                            0 <= xx < w && 0 <= yy < h && (#[trigger] labels@[yy * w + xx]) != 0
                                ==> spec_foreground(*text, *link, xx, yy),
                        forall|xx: int, yy: int|
                            0 <= xx < w && 0 <= yy < y && spec_foreground(*text, *link, xx, yy)
                                ==> (#[trigger] labels@[yy * w + xx]) != 0,
                        forall|xx: int|
                            0 <= xx < x && spec_foreground(*text, *link, xx, y as int)
                                ==> (#[trigger] labels@[y as int * w + xx]) != 0,
                        labels@[y as int * w + x as int] != 0,
                        forall|k: int|
                            0 <= k < stack@.len() ==> (#[trigger] stack@[k]).0 < w && stack@[k].1
                                < h,
                        forall|k: int|
                            0 <= k < stack@.len() ==> labels@[(#[trigger] stack@[k]).1 as int * w
                                + stack@[k].0 as int] == next,
                        spec_walk_settled(*text, *link, labels@, stack@),
                        seeds.len() == next,
                        forall|xx: int, yy: int|
                            0 <= xx < w && 0 <= yy < h && (#[trigger] labels@[yy * w + xx]) != 0
                                ==> 1 <= labels@[yy * w + xx] <= seeds.len() && spec_reaches(
                                *text,
                                *link,
                                xx,
                                yy,
                                seeds[labels@[yy * w + xx] - 1].0,
                                seeds[labels@[yy * w + xx] - 1].1,
                                w * h - spec_count_zeros(labels@),
                            ),
                    decreases spec_count_zeros(labels@), stack@.len(),
                {
                    let ghost sb = stack@;
                    let ghost lb = labels@;
                    let top = stack.pop().unwrap();
                    let cx = top.0;
                    let cy = top.1;
                    proof {
                        lemma_grid_index(cx as int, cy as int, w as int, h as int);
                    }
                    let ghost s0 = stack@;
                    if cx > 0 {
                        visit(&mut labels, &mut stack, text, link, cx - 1, cy, next);
                    }
                    let ghost g1 = labels@;
                    let ghost t1 = stack@;
                    if cx + 1 < w {
                        visit(&mut labels, &mut stack, text, link, cx + 1, cy, next);
                    }
                    let ghost g2 = labels@;
                    let ghost t2 = stack@;
                    if cy > 0 {
                        visit(&mut labels, &mut stack, text, link, cx, cy - 1, next);
                    }
                    let ghost g3 = labels@;
                    let ghost t3 = stack@;
                    if cy + 1 < h {
                        visit(&mut labels, &mut stack, text, link, cx, cy + 1, next);
                    }
                    proof {
                        lemma_count_zeros_bounds(labels@);
                        lemma_count_zeros_bounds(lb);
                        let wi = w as int;
                        let hi = h as int;
                        let cxi = cx as int;
                        let cyi = cy as int;
                        // Values never change once set, so any cell keeps its
                        // old nonzero label, and a freshly set cell holds the
                        // current label.
                        assert forall|px: int, py: int|
                            0 <= px < wi && 0 <= py < hi implies #[trigger] labels@[py * wi + px]
                            == lb[py * wi + px] || (lb[py * wi + px] == 0 && labels@[py * wi + px]
                            == next && spec_adjacent(px, py, cxi, cyi) && spec_foreground(
                            *text,
                            *link,
                            px,
                            py,
                        )) by {
                            lemma_grid_index(px, py, wi, hi);
                        }
                        // The walked cell agrees with all its foreground
                        // neighbours now.
                        assert(labels@[cyi * wi + cxi] == next);
                        assert forall|qx: int, qy: int|
                            0 <= qx < wi && 0 <= qy < hi && #[trigger] spec_adjacent(
                            qx,
                            qy,
                            cxi,
                            cyi,
                        ) && spec_foreground(*text, *link, qx, qy) implies labels@[qy * wi + qx]
                            == next by {
                            lemma_grid_index(qx, qy, wi, hi);
                            if lb[qy * wi + qx] != 0 {
                                if spec_in_stack(sb, qx, qy) {
                                    assert(lb[qy * wi + qx] == next);
                                } else {
                                    assert(spec_neighbors_match(*text, *link, lb, qx, qy));
                                    assert(spec_adjacent(cxi, cyi, qx, qy));
                                    assert(spec_foreground(*text, *link, cxi, cyi));
                                    assert(lb[cyi * wi + cxi] == lb[qy * wi + qx]);
                                }
                                assert(labels@[qy * wi + qx] == lb[qy * wi + qx]);
                            } else {
                                assert(labels@[qy * wi + qx] == next);
                            }
                        }
                        assert(spec_neighbors_match(*text, *link, labels@, cxi, cyi));
                        // Every labeled cell is again either queued or in
                        // agreement with its neighbours.
                        assert forall|px: int, py: int|
                            0 <= px < wi && 0 <= py < hi && #[trigger] labels@[py * wi + px]
                            != 0 implies (spec_in_stack(stack@, px, py) || spec_neighbors_match(
                            *text,
                            *link,
                            labels@,
                            px,
                            py,
                        )) by {
                            lemma_grid_index(px, py, wi, hi);
                            if px == cxi && py == cyi {
                                assert(spec_neighbors_match(*text, *link, labels@, px, py));
                            } else if lb[py * wi + px] == 0 {
                                // Freshly labeled by one of the four walks:
                                // it was pushed and later pushes keep it.
                                if g1[py * wi + px] != 0 {
                                    assert(t1 == s0.push(((px as usize), (py as usize))));
                                    assert(t1[s0.len() as int].0 == px);
                                    assert(spec_in_stack(t1, px, py));
                                    lemma_in_stack_extend(t1, t2, px, py);
                                    lemma_in_stack_extend(t2, t3, px, py);
                                    lemma_in_stack_extend(t3, stack@, px, py);
                                } else if g2[py * wi + px] != 0 {
                                    assert(t2 == t1.push(((px as usize), (py as usize))));
                                    assert(t2[t1.len() as int].0 == px);
                                    assert(spec_in_stack(t2, px, py));
                                    lemma_in_stack_extend(t2, t3, px, py);
                                    lemma_in_stack_extend(t3, stack@, px, py);
                                } else if g3[py * wi + px] != 0 {
                                    assert(t3 == t2.push(((px as usize), (py as usize))));
                                    assert(t3[t2.len() as int].0 == px);
                                    assert(spec_in_stack(t3, px, py));
                                    lemma_in_stack_extend(t3, stack@, px, py);
                                } else {
                                    assert(stack@ == t3.push(((px as usize), (py as usize))));
                                    assert(stack@[t3.len() as int].0 == px);
                                    assert(spec_in_stack(stack@, px, py));
                                }
                            } else if spec_in_stack(sb, px, py) {
                                let k = choose|k: int|
                                    0 <= k < sb.len() && (#[trigger] sb[k]).0 == px && sb[k].1
                                        == py;
                                if k == sb.len() - 1 {
                                    assert(sb[k] == top);
                                    assert(false);
                                } else {
                                    assert(s0[k] == sb[k]);
                                    assert(spec_in_stack(s0, px, py));
                                    lemma_in_stack_extend(s0, t1, px, py);
                                    lemma_in_stack_extend(t1, t2, px, py);
                                    lemma_in_stack_extend(t2, t3, px, py);
                                    lemma_in_stack_extend(t3, stack@, px, py);
                                }
                            } else {
                                assert(spec_neighbors_match(*text, *link, lb, px, py));
                                assert forall|qx: int, qy: int|
                                    0 <= qx < wi && 0 <= qy < hi && #[trigger] spec_adjacent(
                                    qx,
                                    qy,
                                    px,
                                    py,
                                ) && spec_foreground(*text, *link, qx, qy) implies labels@[qy * wi
                                    + qx] == labels@[py * wi + px] by {
                                    lemma_grid_index(qx, qy, wi, hi);
                                    if lb[qy * wi + qx] == 0 {
                                        assert(lb[qy * wi + qx] == lb[py * wi + px]);
                                        assert(false);
                                    }
                                    assert(labels@[qy * wi + qx] == lb[qy * wi + qx]);
                                    assert(labels@[py * wi + px] == lb[py * wi + px]);
                                }
                            }
                        }
                        // Carry every pixel's walk to its seed across
                        // this step.
                        let b0 = wi * hi - spec_count_zeros(lb);
                        let b1 = wi * hi - spec_count_zeros(labels@);
                        assert(spec_count_zeros(g1) <= spec_count_zeros(lb));
                        assert(spec_count_zeros(g2) <= spec_count_zeros(g1));
                        assert(spec_count_zeros(g3) <= spec_count_zeros(g2));
                        assert(spec_count_zeros(labels@) <= spec_count_zeros(g3));
                        assert forall|px: int, py: int|
                            0 <= px < wi && 0 <= py < hi && #[trigger] labels@[py * wi + px]
                            != lb[py * wi + px] implies b1 >= b0 + 1 by {
                            lemma_grid_index(px, py, wi, hi);
                            if g1[py * wi + px] != lb[py * wi + px] {
                                assert(spec_count_zeros(g1) == spec_count_zeros(lb) - 1);
                            } else if g2[py * wi + px] != g1[py * wi + px] {
                                assert(spec_count_zeros(g2) == spec_count_zeros(g1) - 1);
                            } else if g3[py * wi + px] != g2[py * wi + px] {
                                assert(spec_count_zeros(g3) == spec_count_zeros(g2) - 1);
                            } else {
                                assert(labels@[py * wi + px] != g3[py * wi + px]);
                                assert(spec_count_zeros(labels@) == spec_count_zeros(g3) - 1);
                            }
                        }
                        assert(lb[cyi * wi + cxi] == next);
                        lemma_reaches_after_walk(
                            *text,
                            *link,
                            lb,
                            labels@,
                            seeds,
                            cxi,
                            cyi,
                            next,
                            b0,
                            b1,
                        );
                    }
                }
                proof {
                    assert(stack@ =~= Seq::<(usize, usize)>::empty());
                }
                next += 1;
            }
            x += 1;
        }
        y += 1;
    }
    proof {
        let wi = w as int;
        let hi = h as int;
        assert forall|px: int, py: int, qx: int, qy: int|
            0 <= px < wi && 0 <= py < hi && 0 <= qx < wi && 0 <= qy < hi && #[trigger] spec_adjacent(
            qx,
            qy,
            px,
            py,
        ) && spec_foreground(*text, *link, px, py) && spec_foreground(
            *text,
            *link,
            qx,
            qy,
        ) implies labels@[py * wi + px] == labels@[qy * wi + qx] by {
            lemma_grid_index(px, py, wi, hi);
            lemma_grid_index(qx, qy, wi, hi);
            assert(labels@[py * wi + px] != 0);
            assert(spec_neighbors_match(*text, *link, labels@, px, py));
        }
        lemma_count_zeros_bounds(labels@);
        assert forall|x1: int, y1: int, x2: int, y2: int|
            0 <= x1 < wi && 0 <= y1 < hi && 0 <= x2 < wi && 0 <= y2 < hi && labels@[y1 * wi + x1]
                == labels@[y2 * wi + x2] && #[trigger] labels@[y1 * wi + x1] != 0
                && #[trigger] labels@[y2 * wi + x2] != 0 implies spec_same_component(
            *text,
            *link,
            x1,
            y1,
            x2,
            y2,
            wi * hi,
        ) by {
            lemma_grid_index(x1, y1, wi, hi);
            lemma_grid_index(x2, y2, wi, hi);
            let lv = labels@[y1 * wi + x1];
            let b = wi * hi - spec_count_zeros(labels@);
            lemma_reaches_mono(
                *text,
                *link,
                x1,
                y1,
                seeds[lv - 1].0,
                seeds[lv - 1].1,
                b,
                wi * hi,
            );
            lemma_reaches_mono(
                *text,
                *link,
                x2,
                y2,
                seeds[lv - 1].0,
                seeds[lv - 1].1,
                b,
                wi * hi,
            );
            assert(spec_same_component(*text, *link, x1, y1, x2, y2, wi * hi));
        }
    }
    Components { labels, width: w, height: h, count: next }
}

/// How many entries of a mask are set.
pub open spec fn spec_count_true(s: Seq<bool>) -> int
    decreases s.len(),
{
    if s.len() == 0 {
        0
    } else {
        spec_count_true(s.drop_last()) + if s.last() {
            1int
        } else {
            0int
        }
    }
}

/// Count the set entries of a mask.
pub fn count_true(mask: &Vec<bool>) -> (r: usize)
    ensures
        r == spec_count_true(mask@),
        r <= mask@.len(),
{
    let mut r: usize = 0;
    let mut i: usize = 0;
    while i < mask.len()
        invariant
            i <= mask@.len(),
            r == spec_count_true(mask@.take(i as int)),
            r <= i,
        decreases mask@.len() - i,
    {
        proof {
            assert(mask@.take(i + 1).drop_last() == mask@.take(i as int));
            assert(mask@.take(i + 1).last() == mask@[i as int]);
        }
        if mask[i] {
            r += 1;
        }
        i += 1;
    }
    proof {
        assert(mask@.take(mask@.len() as int) == mask@);
    }
    r
}

impl Components {
    /// The mask of one component: set exactly where the grid holds `l`.
    pub fn eq_mask(&self, l: u32) -> (r: Vec<bool>)
        requires
            self.wf(),
        ensures
            r@.len() == self.grid().len(),
            forall|i: int| 0 <= i < r@.len() ==> (#[trigger] r@[i]) == (self.grid()[i] == l),
    {
        let mut out: Vec<bool> = Vec::new();
        let mut i: usize = 0;
        while i < self.labels.len()
            invariant
                self.wf(),
                i <= self.grid().len(),
                out@.len() == i,
                forall|j: int| 0 <= j < i ==> (#[trigger] out@[j]) == (self.grid()[j] == l),
            decreases self.grid().len() - i,
        {
            out.push(self.labels[i] == l);
            i += 1;
        }
        out
    }
}

/// Some masked pixel's score reaches `floor`.
pub open spec fn spec_any_masked_reaches(
    score: ScoreMap,
    mask: Seq<bool>,
    floor: int,
) -> bool {
    exists|x: int, y: int|
        0 <= x < score.spec_width() && 0 <= y < score.spec_height() && mask[y * score.spec_width()
            + x] && score.val(x, y) >= floor
}

/// Whether the score map reaches `floor` anywhere inside the mask.
pub fn any_masked_reaches(score: &ScoreMap, mask: &Vec<bool>, floor: i32) -> (r: bool)
    requires
        score.wf(),
        mask@.len() == score.spec_width() * score.spec_height(),
    ensures
        r == spec_any_masked_reaches(*score, mask@, floor as int),
{
    let w = score.width();
    let h = score.height();
    let mut y: usize = 0;
    while y < h
        invariant
            score.wf(),
            w == score.spec_width(),
            h == score.spec_height(),
            mask@.len() == w * h,
            y <= h,
            forall|xx: int, yy: int|
                0 <= xx < w && 0 <= yy < y && #[trigger] mask@[yy * w + xx] ==> score.val(xx, yy)
                    < floor,
        decreases h - y,
    {
        let mut x: usize = 0;
        while x < w
            invariant
                score.wf(),
                w == score.spec_width(),
                h == score.spec_height(),
                mask@.len() == w * h,
                y < h,
                x <= w,
                forall|xx: int, yy: int|
                    0 <= xx < w && 0 <= yy < y && #[trigger] mask@[yy * w + xx] ==> score.val(
                        xx,
                        yy,
                    ) < floor,
                forall|xx: int|
                    0 <= xx < x && #[trigger] mask@[y as int * w + xx] ==> score.val(xx, y as int)
                        < floor,
            decreases w - x,
        {
            proof {
                lemma_grid_index(x as int, y as int, w as int, h as int);
            }
            if mask[y * w + x] && score.at(x, y) >= floor {
                return true;
            }
            x += 1;
        }
        y += 1;
    }
    false
}

/// The tight bounding box of a mask's set pixels, or `None` when the
/// mask is empty: every set pixel lies inside it, and each of its four
/// edges is attained by a set pixel.
pub fn mask_bounds(mask: &Vec<bool>, w: usize, h: usize) -> (r: Option<
    (usize, usize, usize, usize),
>)
    requires
        0 < w <= 0x8000,
        0 < h <= 0x8000,
        mask@.len() == w * h,
    ensures
        match r {
            Some(b) => {
                &&& b.0 <= b.2 < w
                &&& b.1 <= b.3 < h
                &&& forall|xx: int, yy: int|
                    0 <= xx < w && 0 <= yy < h && #[trigger] mask@[yy * w + xx] ==> b.0 <= xx
                        <= b.2 && b.1 <= yy <= b.3
                &&& exists|xx: int, yy: int|
                    0 <= xx < w && 0 <= yy < h && #[trigger] mask@[yy * w + xx] && xx == b.0
                &&& exists|xx: int, yy: int|
                    0 <= xx < w && 0 <= yy < h && #[trigger] mask@[yy * w + xx] && xx == b.2
                &&& exists|xx: int, yy: int|
                    0 <= xx < w && 0 <= yy < h && #[trigger] mask@[yy * w + xx] && yy == b.1
                &&& exists|xx: int, yy: int|
                    0 <= xx < w && 0 <= yy < h && #[trigger] mask@[yy * w + xx] && yy == b.3
            },
            None => forall|xx: int, yy: int|
                0 <= xx < w && 0 <= yy < h ==> !(#[trigger] mask@[yy * w + xx]),
        },
{
    let mut found = false;
    let mut x0: usize = 0;
    let mut y0: usize = 0;
    let mut x1: usize = 0;
    let mut y1: usize = 0;
    let mut y: usize = 0;
    while y < h
        invariant
            0 < w <= 0x8000,
            0 < h <= 0x8000,
            mask@.len() == w * h,
            y <= h,
            !found ==> forall|xx: int, yy: int|
                0 <= xx < w && 0 <= yy < y ==> !(#[trigger] mask@[yy * w + xx]),
            found ==> {
                &&& x0 <= x1 < w
                &&& y0 <= y1 < h
                &&& y0 <= y
                &&& y1 < y
                &&& forall|xx: int, yy: int|
                    0 <= xx < w && 0 <= yy < y && #[trigger] mask@[yy * w + xx] ==> x0 <= xx <= x1
                        && y0 <= yy <= y1
                &&& exists|xx: int, yy: int|
                    0 <= xx < w && 0 <= yy < h && #[trigger] mask@[yy * w + xx] && xx == x0
                &&& exists|xx: int, yy: int|
                    0 <= xx < w && 0 <= yy < h && #[trigger] mask@[yy * w + xx] && xx == x1
                &&& exists|xx: int, yy: int|
                    0 <= xx < w && 0 <= yy < h && #[trigger] mask@[yy * w + xx] && yy == y0
                &&& exists|xx: int, yy: int|
                    0 <= xx < w && 0 <= yy < h && #[trigger] mask@[yy * w + xx] && yy == y1
            },
        decreases h - y,
    {
        let mut x: usize = 0;
        while x < w
            invariant
                0 < w <= 0x8000,
                0 < h <= 0x8000,
                mask@.len() == w * h,
                y < h,
                x <= w,
                !found ==> forall|xx: int, yy: int|
                    0 <= xx < w && 0 <= yy < y ==> !(#[trigger] mask@[yy * w + xx]),
                !found ==> forall|xx: int| 0 <= xx < x ==> !(#[trigger] mask@[y as int * w + xx]),
                found ==> {
                    &&& x0 <= x1 < w
                    &&& y0 <= y1 < h
                    &&& y0 <= y
                    &&& y1 <= y
                    &&& forall|xx: int, yy: int|
                        0 <= xx < w && 0 <= yy < y && #[trigger] mask@[yy * w + xx] ==> x0 <= xx
                            <= x1 && y0 <= yy <= y1
                    &&& forall|xx: int|
                        0 <= xx < x && #[trigger] mask@[y as int * w + xx] ==> x0 <= xx <= x1 && y0
                            <= y <= y1
                    &&& exists|xx: int, yy: int|
                        0 <= xx < w && 0 <= yy < h && #[trigger] mask@[yy * w + xx] && xx == x0
                    &&& exists|xx: int, yy: int|
                        0 <= xx < w && 0 <= yy < h && #[trigger] mask@[yy * w + xx] && xx == x1
                    &&& exists|xx: int, yy: int|
                        0 <= xx < w && 0 <= yy < h && #[trigger] mask@[yy * w + xx] && yy == y0
                    &&& exists|xx: int, yy: int|
                        0 <= xx < w && 0 <= yy < h && #[trigger] mask@[yy * w + xx] && yy == y1
                },
            decreases w - x,
        {
            proof {
                lemma_grid_index(x as int, y as int, w as int, h as int);
            }
            if mask[y * w + x] {
                proof {
                    assert(mask@[(y as int) * (w as int) + (x as int)]);
                }
                if !found {
                    found = true;
                    x0 = x;
                    x1 = x;
                    y0 = y;
                    y1 = y;
                } else {
                    if x < x0 {
                        x0 = x;
                    }
                    if x > x1 {
                        x1 = x;
                    }
                    if y > y1 {
                        y1 = y;
                    }
                }
            }
            x += 1;
        }
        y += 1;
    }
    if found {
        Some((x0, y0, x1, y1))
    } else {
        None
    }
}

/// Integer square root: the largest `r` with `r * r <= n`.
fn isqrt(n: u64) -> (r: u64)
    requires
        n < 0x4_0000_0000_0000,
    ensures
        r * r <= n,
        n < (r + 1) * (r + 1),
        r <= 0x200_0000,
{
    let mut lo: u64 = 0;
    let mut hi: u64 = 0x200_0000;
    proof {
        assert((0x200_0000u64 + 1) * (0x200_0000u64 + 1) > 0x4_0000_0000_0000) by (nonlinear_arith);
    }
    while lo < hi
        invariant
            lo <= hi <= 0x200_0000,
            lo * lo <= n,
            n < (hi + 1) * (hi + 1),
        decreases hi - lo,
    {
        let mid = lo + (hi - lo + 1) / 2;
        proof {
            assert(lo < mid <= hi);
            vstd::arithmetic::mul::lemma_mul_upper_bound(
                mid as int,
                0x200_0000,
                mid as int,
                0x200_0000,
            );
            vstd::arithmetic::mul::lemma_mul_nonnegative(mid as int, mid as int);
        }
        if mid * mid <= n {
            lo = mid;
        } else {
            hi = mid - 1;
        }
    }
    lo
}

/// The adaptive expansion size for a component: the rounded value of
/// `2 * sqrt(area * min(w, h) / (w * h))`, halves rounding up. The two
/// inequalities of the contract pin the value exactly.
pub fn expansion_size(area: usize, w: usize, h: usize) -> (r: usize)
    requires
        1 <= w <= 0x8000,
        1 <= h <= 0x8000,
        area <= 0x4000_0000,
    ensures
        ({
            let m = if w <= h { w as int } else { h as int };
            let n = 16 * area * m;
            let d = w * h;
            &&& r >= 1 ==> (2 * r - 1) * (2 * r - 1) * d <= n
            &&& n < (2 * r + 1) * (2 * r + 1) * d
        }),
        r <= 0x200_0000,
{
    let m: u64 = if w <= h {
        w as u64
    } else {
        h as u64
    };
    proof {
        vstd::arithmetic::mul::lemma_mul_upper_bound(w as int, 0x8000, h as int, 0x8000);
        vstd::arithmetic::mul::lemma_mul_nonnegative(w as int, h as int);
        vstd::arithmetic::mul::lemma_mul_strictly_positive(w as int, h as int);
        vstd::arithmetic::mul::lemma_mul_upper_bound(
            16 * area as int,
            0x4_0000_0000int,
            m as int,
            0x8000,
        );
        vstd::arithmetic::mul::lemma_mul_nonnegative(16 * area as int, m as int);
    }
    let d: u64 = (w as u64) * (h as u64);
    let n: u64 = 16 * (area as u64) * m;
    let q: u64 = n / d;
    proof {
        vstd::arithmetic::div_mod::lemma_div_pos_is_pos(n as int, d as int);
        assert(n as int / d as int <= n as int) by (nonlinear_arith)
            requires
                n >= 0,
                d >= 1,
        ;
    }
    let s = isqrt(q);
    let r = ((s + 1) / 2) as usize;
    proof {
        let ni = n as int;
        let di = d as int;
        let qi = q as int;
        let si = s as int;
        let ri = r as int;
        assert(qi == ni / di);
        assert(qi * di <= ni && ni < (qi + 1) * di) by (nonlinear_arith)
            requires
                qi == ni / di,
                di >= 1,
                ni >= 0,
        ;
        if ri >= 1 {
            assert(2 * ri - 1 <= si);
            assert((2 * ri - 1) * (2 * ri - 1) <= si * si) by (nonlinear_arith)
                requires
                    0 <= 2 * ri - 1 <= si,
            ;
            assert((2 * ri - 1) * (2 * ri - 1) * di <= qi * di) by (nonlinear_arith)
                requires
                    (2 * ri - 1) * (2 * ri - 1) <= si * si,
                    si * si <= qi,
                    di >= 1,
            ;
        }
        assert(si + 1 <= 2 * ri + 1);
        assert(qi < (si + 1) * (si + 1));
        assert(qi + 1 <= (2 * ri + 1) * (2 * ri + 1)) by (nonlinear_arith)
            requires
                qi < (si + 1) * (si + 1),
                0 <= si + 1 <= 2 * ri + 1,
        ;
        assert((qi + 1) * di <= (2 * ri + 1) * (2 * ri + 1) * di) by (nonlinear_arith)
            requires
                qi + 1 <= (2 * ri + 1) * (2 * ri + 1),
                di >= 1,
        ;
        assert(16 * (area as int) * (if w <= h { w as int } else { h as int }) == ni);
    }
    r
}

/// Project one half-resolution map coordinate to the caller space:
/// scale by twice the resize ratio `num / den`, truncate, and add the
/// offset.
pub open spec fn spec_project(v: int, num: int, den: int, off: int) -> int {
    (v * num * 2) / den + off
}

fn project_coord(v: usize, num: i32, den: i32, off: i32) -> (r: i32)
    requires
        v <= 0x12000,
        0 <= num,
        0 < den <= 1_000_000,
        num <= 16 * den,
        0 <= off <= 1_000_000,
    ensures
        r == spec_project(v as int, num as int, den as int, off as int),
        off <= r <= off + 32 * v,
{
    proof {
        vstd::arithmetic::mul::lemma_mul_nonnegative(v as int, num as int);
        vstd::arithmetic::mul::lemma_mul_upper_bound(v as int, 0x12000, num as int, 16_000_000);
        vstd::arithmetic::div_mod::lemma_div_pos_is_pos(v as int * num as int * 2, den as int);
        assert((v as int * num as int * 2) / den as int <= v as int * 32) by (nonlinear_arith)
            requires
                0 <= num <= 16 * den,
                0 < den,
                0 <= v,
        ;
    }
    let scaled = ((v as i64) * (num as i64) * 2) / (den as i64);
    (scaled as i32) + off
}

/// How many entries of a label grid hold `l`.
pub open spec fn spec_label_area(g: Seq<u32>, l: u32) -> int
    decreases g.len(),
{
    if g.len() == 0 {
        0
    } else {
        spec_label_area(g.drop_last(), l) + if g.last() == l {
            1int
        } else {
            0int
        }
    }
}

proof fn lemma_count_label_matches(mask: Seq<bool>, g: Seq<u32>, l: u32)
    requires
        mask.len() == g.len(),
        forall|i: int| 0 <= i < mask.len() ==> (#[trigger] mask[i]) == (g[i] == l),
    ensures
        spec_count_true(mask) == spec_label_area(g, l),
    decreases g.len(),
{
    if g.len() > 0 {
        assert forall|i: int| 0 <= i < mask.drop_last().len() implies (#[trigger] mask.drop_last()[
        i]) == (g.drop_last()[i] == l) by {
            assert(mask.drop_last()[i] == mask[i]);
            assert(g.drop_last()[i] == g[i]);
        }
        lemma_count_label_matches(mask.drop_last(), g.drop_last(), l);
        assert(mask.last() == (g.last() == l));
    }
}

/// Somewhere inside the component the raw text score reaches the
/// floor.
pub open spec fn spec_component_confident(text: ScoreMap, c: Components, l: u32) -> bool {
    exists|x: int, y: int|
        #![auto]
        0 <= x < c.spec_width() && 0 <= y < c.spec_height() && c.label_at(x, y) == l && text.val(
            x,
            y,
        ) >= TEXT_SCORE_FLOOR
}

/// The filter of the extractor: a component yields a box exactly when
/// it covers at least [`MIN_COMPONENT_AREA`] pixels and its best raw
/// text score reaches [`TEXT_SCORE_FLOOR`].
pub open spec fn spec_component_accepted(text: ScoreMap, c: Components, l: u32) -> bool {
    &&& spec_label_area(c.grid(), l) >= MIN_COMPONENT_AREA
    &&& spec_component_confident(text, c, l)
}

proof fn lemma_mask_confidence(text: ScoreMap, c: Components, l: u32, mask: Seq<bool>)
    requires
        text.wf(),
        c.wf(),
        c.spec_width() == text.spec_width(),
        c.spec_height() == text.spec_height(),
        mask.len() == c.grid().len(),
        forall|i: int| 0 <= i < mask.len() ==> (#[trigger] mask[i]) == (c.grid()[i] == l),
    ensures
        spec_any_masked_reaches(text, mask, TEXT_SCORE_FLOOR as int) == spec_component_confident(
            text,
            c,
            l,
        ),
{
    let w = c.spec_width();
    let h = c.spec_height();
    if spec_any_masked_reaches(text, mask, TEXT_SCORE_FLOOR as int) {
        let (x, y) = choose|x: int, y: int|
            0 <= x < text.spec_width() && 0 <= y < text.spec_height() && mask[y * text.spec_width()
                + x] && text.val(x, y) >= TEXT_SCORE_FLOOR;
        lemma_grid_index(x, y, w, h);
        assert(c.grid()[y * w + x] == l);
        assert(c.label_at(x, y) == l);
        assert(spec_component_confident(text, c, l));
    }
    if spec_component_confident(text, c, l) {
        let (x, y) = choose|x: int, y: int|
            #![auto]
            0 <= x < c.spec_width() && 0 <= y < c.spec_height() && c.label_at(x, y) == l
                && text.val(x, y) >= TEXT_SCORE_FLOOR;
        lemma_grid_index(x, y, w, h);
        assert(c.grid()[y * w + x] == l);
        assert(mask[y * text.spec_width() + x]);
        assert(spec_any_masked_reaches(text, mask, TEXT_SCORE_FLOOR as int));
    }
}

/// A component pixel that is not a link bridge: what remains of the
/// component before dilation.
pub open spec fn spec_seg(
    text: ScoreMap,
    link: ScoreMap,
    c: Components,
    l: u32,
    x: int,
    y: int,
) -> bool {
    c.label_at(x, y) == l && !spec_bridge(text, link, x, y)
}

/// Build the local segment mask of component `l` over the region
/// `[sx, ex) x [sy, ey)`.
fn build_seg(
    text: &ScoreMap,
    link: &ScoreMap,
    c: &Components,
    l: u32,
    sx: usize,
    sy: usize,
    ex: usize,
    ey: usize,
) -> (r: Vec<bool>)
    requires
        text.wf(),
        link.wf(),
        c.wf(),
        link.spec_width() == text.spec_width(),
        link.spec_height() == text.spec_height(),
        c.spec_width() == text.spec_width(),
        c.spec_height() == text.spec_height(),
        sx < ex <= text.spec_width(),
        sy < ey <= text.spec_height(),
    ensures
        r@.len() == (ex - sx) * (ey - sy),
        forall|lx: int, ly: int|
            0 <= lx < ex - sx && 0 <= ly < ey - sy ==> (#[trigger] r@[ly * (ex - sx) + lx])
                == spec_seg(*text, *link, *c, l, sx + lx, sy + ly),
{
    let rw = ex - sx;
    let rh = ey - sy;
    let mut out: Vec<bool> = Vec::new();
    let mut ly: usize = 0;
    while ly < rh
        invariant
            text.wf(),
            link.wf(),
            c.wf(),
            link.spec_width() == text.spec_width(),
            link.spec_height() == text.spec_height(),
            c.spec_width() == text.spec_width(),
            c.spec_height() == text.spec_height(),
            sx < ex <= text.spec_width(),
            sy < ey <= text.spec_height(),
            rw == ex - sx,
            rh == ey - sy,
            ly <= rh,
            out@.len() == ly * rw,
            forall|qx: int, qy: int|
                0 <= qx < rw && 0 <= qy < ly ==> (#[trigger] out@[qy * rw + qx]) == spec_seg(
                    *text,
                    *link,
                    *c,
                    l,
                    sx + qx,
                    sy + qy,
                ),
        decreases rh - ly,
    {
        let mut lx: usize = 0;
        while lx < rw
            invariant
                text.wf(),
                link.wf(),
                c.wf(),
                link.spec_width() == text.spec_width(),
                link.spec_height() == text.spec_height(),
                c.spec_width() == text.spec_width(),
                c.spec_height() == text.spec_height(),
                sx < ex <= text.spec_width(),
                sy < ey <= text.spec_height(),
                rw == ex - sx,
                rh == ey - sy,
                ly < rh,
                lx <= rw,
                out@.len() == ly * rw + lx,
                forall|qx: int, qy: int|
                    0 <= qx < rw && 0 <= qy < ly ==> (#[trigger] out@[qy * rw + qx]) == spec_seg(
                        *text,
                        *link,
                        *c,
                        l,
                        sx + qx,
                        sy + qy,
                    ),
                forall|qx: int|
                    0 <= qx < lx ==> (#[trigger] out@[ly as int * rw + qx]) == spec_seg(
                        *text,
                        *link,
                        *c,
                        l,
                        sx + qx,
                        sy + ly,
                    ),
            decreases rw - lx,
        {
            let gx = sx + lx;
            let gy = sy + ly;
            let v = c.label(gx, gy) == l && !(link.at(gx, gy) >= LINK_SCORE_FLOOR && text.at(
                gx,
                gy,
            ) == 0);
            proof {
                vstd::arithmetic::mul::lemma_mul_nonnegative(ly as int, rw as int);
            }
            out.push(v);
            proof {
                assert forall|qx: int, qy: int|
                    0 <= qx < rw && (0 <= qy < ly || qy == ly && qx < lx + 1) implies (
                #[trigger] out@[qy * rw + qx]) == spec_seg(*text, *link, *c, l, sx + qx, sy
                    + qy) by {
                    lemma_grid_index(qx, qy, rw as int, rh as int);
                    if qy == ly as int && qx == lx as int {
                        assert(out@[qy * rw + qx] == v);
                    } else {
                        if qy < ly as int {
                            vstd::arithmetic::mul::lemma_mul_inequality(
                                qy,
                                ly as int - 1,
                                rw as int,
                            );
                            assert((ly as int - 1) * rw + rw == ly as int * rw)
                                by (nonlinear_arith);
                        }
                        assert(qy * rw + qx < ly as int * rw + lx);
                    }
                }
            }
            lx += 1;
        }
        proof {
            assert((ly + 1) * rw == ly * rw + rw) by (nonlinear_arith);
        }
        ly += 1;
    }
    proof {
        vstd::arithmetic::mul::lemma_mul_is_commutative(rh as int, rw as int);
    }
    out
}

/// A dilated pixel: some set pixel of the input lies inside the
/// square structuring element of side `ks` anchored at its centre.
pub open spec fn spec_dilated(seg: Seq<bool>, rw: int, rh: int, ks: int, x: int, y: int) -> bool {
    let a = ks / 2;
    exists|ux: int, uy: int|
        0 <= ux < rw && 0 <= uy < rh && x - a <= ux <= x + (ks - 1) - a && y - a <= uy <= y + (ks
            - 1) - a && #[trigger] seg[uy * rw + ux]
}

fn window_any(seg: &Vec<bool>, rw: usize, rh: usize, ks: usize, x: usize, y: usize) -> (r: bool)
    requires
        0 < rw <= 0x8000,
        0 < rh <= 0x8000,
        seg@.len() == rw * rh,
        x < rw,
        y < rh,
        1 <= ks <= 0x400_0000,
    ensures
        r == spec_dilated(seg@, rw as int, rh as int, ks as int, x as int, y as int),
{
    let a = ks / 2;
    proof {
        vstd::arithmetic::div_mod::lemma_fundamental_div_mod(ks as int, 2);
        vstd::arithmetic::div_mod::lemma_div_pos_is_pos(ks as int, 2);
    }
    let ux0: usize = if x >= a {
        x - a
    } else {
        0
    };
    let hi_x = x + (ks - 1) - a;
    let ux1: usize = if hi_x < rw - 1 {
        hi_x
    } else {
        rw - 1
    };
    let uy0: usize = if y >= a {
        y - a
    } else {
        0
    };
    let hi_y = y + (ks - 1) - a;
    let uy1: usize = if hi_y < rh - 1 {
        hi_y
    } else {
        rh - 1
    };
    let mut uy = uy0;
    while uy <= uy1
        invariant
            0 < rw <= 0x8000,
            0 < rh <= 0x8000,
            seg@.len() == rw * rh,
            x < rw,
            y < rh,
            1 <= ks <= 0x400_0000,
            a == ks / 2,
            a <= ks - 1,
            x - a <= ux0,
            ux0 == if x >= a { (x - a) as int } else { 0int },
            ux1 < rw,
            ux1 <= x + (ks - 1) - a,
            x + (ks - 1) - a < rw ==> ux1 == x + (ks - 1) - a,
            x + (ks - 1) - a >= rw ==> ux1 == rw - 1,
            y - a <= uy0,
            uy0 == if y >= a { (y - a) as int } else { 0int },
            uy1 < rh,
            uy1 <= y + (ks - 1) - a,
            y + (ks - 1) - a < rh ==> uy1 == y + (ks - 1) - a,
            y + (ks - 1) - a >= rh ==> uy1 == rh - 1,
            uy0 <= uy <= uy1 + 1,
            forall|qx: int, qy: int|
                ux0 <= qx <= ux1 && uy0 <= qy < uy ==> !(#[trigger] seg@[qy * rw + qx]),
        decreases uy1 + 1 - uy,
    {
        let mut ux = ux0;
        while ux <= ux1
            invariant
                0 < rw <= 0x8000,
                0 < rh <= 0x8000,
                seg@.len() == rw * rh,
                x < rw,
                y < rh,
                1 <= ks <= 0x400_0000,
                a == ks / 2,
                a <= ks - 1,
                x - a <= ux0,
                ux1 < rw,
                ux1 <= x + (ks - 1) - a,
                y - a <= uy0,
                uy1 < rh,
                uy1 <= y + (ks - 1) - a,
                uy0 <= uy,
                uy <= uy1 < rh,
                ux0 <= ux <= ux1 + 1,
                forall|qx: int, qy: int|
                    ux0 <= qx <= ux1 && uy0 <= qy < uy ==> !(#[trigger] seg@[qy * rw + qx]),
                forall|qx: int| ux0 <= qx < ux ==> !(#[trigger] seg@[uy as int * rw + qx]),
            decreases ux1 + 1 - ux,
        {
            proof {
                lemma_grid_index(ux as int, uy as int, rw as int, rh as int);
            }
            if seg[uy * rw + ux] {
                proof {
                    assert(seg@[(uy as int) * (rw as int) + (ux as int)]);
                    assert(spec_dilated(
                        seg@,
                        rw as int,
                        rh as int,
                        ks as int,
                        x as int,
                        y as int,
                    ));
                }
                return true;
            }
            ux += 1;
        }
        uy += 1;
    }
    proof {
        assert forall|qx: int, qy: int|
            0 <= qx < rw && 0 <= qy < rh && x - a <= qx <= x + (ks - 1) - a && y - a <= qy <= y + (
        ks - 1) - a implies !(#[trigger] seg@[qy * rw + qx]) by {
            assert(ux0 <= qx <= ux1);
            assert(uy0 <= qy <= uy1);
        }
    }
    false
}

/// Dilate a local mask with a square structuring element of side `ks`
/// anchored at its centre; the region's edge truncates the element.
fn dilate(seg: &Vec<bool>, rw: usize, rh: usize, ks: usize) -> (r: Vec<bool>)
    requires
        0 < rw <= 0x8000,
        0 < rh <= 0x8000,
        seg@.len() == rw * rh,
        1 <= ks <= 0x400_0000,
    ensures
        r@.len() == rw * rh,
        forall|x: int, y: int|
            0 <= x < rw && 0 <= y < rh ==> (#[trigger] r@[y * rw + x]) == spec_dilated(
                seg@,
                rw as int,
                rh as int,
                ks as int,
                x,
                y,
            ),
{
    let mut out: Vec<bool> = Vec::new();
    let mut y: usize = 0;
    while y < rh
        invariant
            0 < rw <= 0x8000,
            0 < rh <= 0x8000,
            seg@.len() == rw * rh,
            1 <= ks <= 0x400_0000,
            y <= rh,
            out@.len() == y * rw,
            forall|qx: int, qy: int|
                0 <= qx < rw && 0 <= qy < y ==> (#[trigger] out@[qy * rw + qx]) == spec_dilated(
                    seg@,
                    rw as int,
                    rh as int,
                    ks as int,
                    qx,
                    qy,
                ),
        decreases rh - y,
    {
        let mut x: usize = 0;
        while x < rw
            invariant
                0 < rw <= 0x8000,
                0 < rh <= 0x8000,
                seg@.len() == rw * rh,
                1 <= ks <= 0x400_0000,
                y < rh,
                x <= rw,
                out@.len() == y * rw + x,
                forall|qx: int, qy: int|
                    0 <= qx < rw && 0 <= qy < y ==> (#[trigger] out@[qy * rw + qx]) == spec_dilated(
                        seg@,
                        rw as int,
                        rh as int,
                        ks as int,
                        qx,
                        qy,
                    ),
                forall|qx: int|
                    0 <= qx < x ==> (#[trigger] out@[y as int * rw + qx]) == spec_dilated(
                        seg@,
                        rw as int,
                        rh as int,
                        ks as int,
                        qx,
                        y as int,
                    ),
            decreases rw - x,
        {
            let v = window_any(seg, rw, rh, ks, x, y);
            proof {
                vstd::arithmetic::mul::lemma_mul_nonnegative(y as int, rw as int);
            }
            out.push(v);
            proof {
                assert forall|qx: int, qy: int|
                    0 <= qx < rw && (0 <= qy < y || qy == y && qx < x + 1) implies (
                #[trigger] out@[qy * rw + qx]) == spec_dilated(
                    seg@,
                    rw as int,
                    rh as int,
                    ks as int,
                    qx,
                    qy,
                ) by {
                    lemma_grid_index(qx, qy, rw as int, rh as int);
                    if qy == y as int && qx == x as int {
                        assert(out@[qy * rw + qx] == v);
                    } else {
                        if qy < y as int {
                            vstd::arithmetic::mul::lemma_mul_inequality(
                                qy,
                                y as int - 1,
                                rw as int,
                            );
                            assert((y as int - 1) * rw + rw == y as int * rw)
                                by (nonlinear_arith);
                        }
                        assert(qy * rw + qx < y as int * rw + x);
                    }
                }
            }
            x += 1;
        }
        proof {
            assert((y + 1) * rw == y * rw + rw) by (nonlinear_arith);
        }
        y += 1;
    }
    proof {
        vstd::arithmetic::mul::lemma_mul_is_commutative(rh as int, rw as int);
    }
    out
}

/// The tight bounds of component `l`: every pixel of the component
/// lies inside them and each of the four edges is attained.
pub open spec fn spec_component_bounds(
    c: Components,
    l: u32,
    x0: int,
    y0: int,
    x1: int,
    y1: int,
) -> bool {
    &&& 0 <= x0 <= x1 < c.spec_width()
    &&& 0 <= y0 <= y1 < c.spec_height()
    &&& forall|x: int, y: int|
        0 <= x < c.spec_width() && 0 <= y < c.spec_height() && #[trigger] c.label_at(x, y) == l
            ==> x0 <= x <= x1 && y0 <= y <= y1
    &&& exists|x: int, y: int|
        #![auto]
        0 <= x < c.spec_width() && 0 <= y < c.spec_height() && c.label_at(x, y) == l && x == x0
    &&& exists|x: int, y: int|
        #![auto]
        0 <= x < c.spec_width() && 0 <= y < c.spec_height() && c.label_at(x, y) == l && x == x1
    &&& exists|x: int, y: int|
        #![auto]
        0 <= x < c.spec_width() && 0 <= y < c.spec_height() && c.label_at(x, y) == l && y == y0
    &&& exists|x: int, y: int|
        #![auto]
        0 <= x < c.spec_width() && 0 <= y < c.spec_height() && c.label_at(x, y) == l && y == y1
}

/// The adaptive expansion size of a component with `area` pixels in a
/// `w` by `h` bounding box: the two inequalities say `sz` is the
/// rounded value of `2 * sqrt(area * min(w, h) / (w * h))`, halves up.
pub open spec fn spec_expansion_size_ok(area: int, w: int, h: int, sz: int) -> bool {
    let m = if w <= h {
        w
    } else {
        h
    };
    let n = 16 * area * m;
    let d = w * h;
    &&& sz >= 0
    &&& (sz >= 1 ==> (2 * sz - 1) * (2 * sz - 1) * d <= n)
    &&& n < (2 * sz + 1) * (2 * sz + 1) * d
}

/// A dilated pixel of component `l`, in coordinates local to the
/// region of interest `[sx, ex) x [sy, ey)`: some segment pixel of the
/// component lies inside the centred square element of side `ks`.
pub open spec fn spec_dilated_component(
    text: ScoreMap,
    link: ScoreMap,
    c: Components,
    l: u32,
    sx: int,
    sy: int,
    ex: int,
    ey: int,
    ks: int,
    x: int,
    y: int,
) -> bool {
    let a = ks / 2;
    exists|ux: int, uy: int|
        0 <= ux < ex - sx && 0 <= uy < ey - sy && x - a <= ux <= x + (ks - 1) - a && y - a <= uy
            <= y + (ks - 1) - a && #[trigger] spec_seg(text, link, c, l, sx + ux, sy + uy)
}

/// The tight bounds of the dilated component inside the region of
/// interest, in local coordinates.
pub open spec fn spec_dilated_bounds(
    text: ScoreMap,
    link: ScoreMap,
    c: Components,
    l: u32,
    sx: int,
    sy: int,
    ex: int,
    ey: int,
    ks: int,
    mnx: int,
    mny: int,
    mxx: int,
    mxy: int,
) -> bool {
    &&& 0 <= mnx <= mxx < ex - sx
    &&& 0 <= mny <= mxy < ey - sy
    &&& forall|x: int, y: int|
        0 <= x < ex - sx && 0 <= y < ey - sy && #[trigger] spec_dilated_component(
            text,
            link,
            c,
            l,
            sx,
            sy,
            ex,
            ey,
            ks,
            x,
            y,
        ) ==> mnx <= x <= mxx && mny <= y <= mxy
    &&& exists|x: int, y: int|
        #![auto]
        0 <= x < ex - sx && 0 <= y < ey - sy && spec_dilated_component(
            text, link, c, l, sx, sy, ex, ey, ks, x, y,
        ) && x == mnx
    &&& exists|x: int, y: int|
        #![auto]
        0 <= x < ex - sx && 0 <= y < ey - sy && spec_dilated_component(
            text, link, c, l, sx, sy, ex, ey, ks, x, y,
        ) && x == mxx
    &&& exists|x: int, y: int|
        #![auto]
        0 <= x < ex - sx && 0 <= y < ey - sy && spec_dilated_component(
            text, link, c, l, sx, sy, ex, ey, ks, x, y,
        ) && y == mny
    &&& exists|x: int, y: int|
        #![auto]
        0 <= x < ex - sx && 0 <= y < ey - sy && spec_dilated_component(
            text, link, c, l, sx, sy, ex, ey, ks, x, y,
        ) && y == mxy
}

/// The box a kept component yields: its tight bounds `x0..y1`, the
/// adaptive size `sz` with its kernel side `ks`, the clamped region of
/// interest `[sx, ex) x [sy, ey)`, the dilated segment's tight bounds
/// `mnx..mxy` inside it, and the projected corners spanned as a
/// rectangle.
pub open spec fn spec_component_box(
    text: ScoreMap,
    link: ScoreMap,
    c: Components,
    l: u32,
    w_num: int,
    w_den: int,
    h_num: int,
    h_den: int,
    x_offset: int,
    y_offset: int,
    rect: Rect,
) -> bool {
    exists|
        x0: int,
        y0: int,
        x1: int,
        y1: int,
        bw: int,
        bh: int,
        sz: int,
        ks: int,
        sx: int,
        sy: int,
        ex: int,
        ey: int,
        mnx: int,
        mny: int,
        mxx: int,
        mxy: int,
    |
        #![trigger spec_component_bounds(c, l, x0, y0, x1, y1), spec_expansion_size_ok(spec_label_area(c.grid(), l), bw, bh, sz), spec_dilated_bounds(text, link, c, l, sx, sy, ex, ey, ks, mnx, mny, mxx, mxy)]
        {
            &&& spec_component_bounds(c, l, x0, y0, x1, y1)
            &&& bw == x1 - x0 + 1
            &&& bh == y1 - y0 + 1
            &&& spec_expansion_size_ok(spec_label_area(c.grid(), l), bw, bh, sz)
            &&& ks == sz + 1
            &&& sx == if x0 - ks >= 0 {
                x0 - ks
            } else {
                0int
            }
            &&& sy == if y0 - ks >= 0 {
                y0 - ks
            } else {
                0int
            }
            &&& ex == if x1 + ks + 1 <= c.spec_width() {
                x1 + ks + 1
            } else {
                c.spec_width()
            }
            &&& ey == if y1 + ks + 1 <= c.spec_height() {
                y1 + ks + 1
            } else {
                c.spec_height()
            }
            &&& spec_dilated_bounds(text, link, c, l, sx, sy, ex, ey, ks, mnx, mny, mxx, mxy)
            &&& ({
                let tlx = spec_project(sx + mnx, w_num, w_den, x_offset);
                let tly = spec_project(sy + mny, h_num, h_den, y_offset);
                let brx = spec_project(sx + mxx, w_num, w_den, x_offset);
                let bry = spec_project(sy + mxy, h_num, h_den, y_offset);
                &&& rect.x == if tlx <= brx {
                    tlx
                } else {
                    brx
                }
                &&& rect.y == if tly <= bry {
                    tly
                } else {
                    bry
                }
                &&& rect.right() == if tlx <= brx {
                    brx
                } else {
                    tlx
                }
                &&& rect.bottom() == if tly <= bry {
                    bry
                } else {
                    tly
                }
            })
        }
}

/// A confident component has a pixel, so its mask cannot be empty.
proof fn lemma_confident_pixel_exists(text: ScoreMap, c: Components, l: u32, mask: Seq<bool>)
    requires
        c.wf(),
        c.spec_width() == text.spec_width(),
        c.spec_height() == text.spec_height(),
        mask.len() == c.grid().len(),
        forall|i: int| 0 <= i < mask.len() ==> (#[trigger] mask[i]) == (c.grid()[i] == l),
        spec_component_confident(text, c, l),
    ensures
        exists|xx: int, yy: int|
            0 <= xx < c.spec_width() && 0 <= yy < c.spec_height() && #[trigger] mask[yy
                * c.spec_width() + xx],
{
    let (wx, wy) = choose|x: int, y: int|
        #![auto]
        0 <= x < c.spec_width() && 0 <= y < c.spec_height() && c.label_at(x, y) == l && text.val(
            x,
            y,
        ) >= TEXT_SCORE_FLOOR;
    lemma_grid_index(wx, wy, c.spec_width(), c.spec_height());
    assert(c.grid()[wy * c.spec_width() + wx] == l);
    assert(mask[wy * c.spec_width() + wx]);
}

/// A confident component's pixel survives bridge removal and appears
/// in the dilated mask, so the dilated mask cannot be empty.
proof fn lemma_kept_component_dilates(
    text: ScoreMap,
    link: ScoreMap,
    c: Components,
    l: u32,
    mask: Seq<bool>,
    x0: int,
    y0: int,
    x1: int,
    y1: int,
    sx: int,
    sy: int,
    ex: int,
    ey: int,
    ks: int,
    seg: Seq<bool>,
    dil: Seq<bool>,
)
    requires
        text.wf(),
        link.wf(),
        c.wf(),
        c.spec_width() == text.spec_width(),
        c.spec_height() == text.spec_height(),
        mask.len() == c.grid().len(),
        forall|i: int| 0 <= i < mask.len() ==> (#[trigger] mask[i]) == (c.grid()[i] == l),
        spec_component_confident(text, c, l),
        forall|xx: int, yy: int|
            0 <= xx < c.spec_width() && 0 <= yy < c.spec_height() && #[trigger] mask[yy
                * c.spec_width() + xx] ==> x0 <= xx <= x1 && y0 <= yy <= y1,
        0 <= sx <= x0,
        0 <= sy <= y0,
        x1 < ex <= c.spec_width(),
        y1 < ey <= c.spec_height(),
        ks >= 1,
        seg.len() == (ex - sx) * (ey - sy),
        forall|lx: int, ly: int|
            0 <= lx < ex - sx && 0 <= ly < ey - sy ==> (#[trigger] seg[ly * (ex - sx) + lx])
                == spec_seg(text, link, c, l, sx + lx, sy + ly),
        dil.len() == (ex - sx) * (ey - sy),
        forall|lx: int, ly: int|
            0 <= lx < ex - sx && 0 <= ly < ey - sy ==> (#[trigger] dil[ly * (ex - sx) + lx])
                == spec_dilated(seg, ex - sx, ey - sy, ks, lx, ly),
    ensures
        exists|xx: int, yy: int|
            0 <= xx < ex - sx && 0 <= yy < ey - sy && #[trigger] dil[yy * (ex - sx) + xx],
{
    let (wx, wy) = choose|x: int, y: int|
        #![auto]
        0 <= x < c.spec_width() && 0 <= y < c.spec_height() && c.label_at(x, y) == l && text.val(
            x,
            y,
        ) >= TEXT_SCORE_FLOOR;
    lemma_grid_index(wx, wy, c.spec_width(), c.spec_height());
    assert(c.grid()[wy * c.spec_width() + wx] == l);
    assert(mask[wy * c.spec_width() + wx]);
    assert(x0 <= wx <= x1 && y0 <= wy <= y1);
    let lx = wx - sx;
    let ly = wy - sy;
    assert(0 <= lx < ex - sx && 0 <= ly < ey - sy);
    assert(!spec_bridge(text, link, wx, wy));
    assert(seg[ly * (ex - sx) + lx] == spec_seg(text, link, c, l, sx + lx, sy + ly));
    assert(seg[ly * (ex - sx) + lx]);
    vstd::arithmetic::div_mod::lemma_fundamental_div_mod(ks, 2);
    vstd::arithmetic::div_mod::lemma_div_pos_is_pos(ks, 2);
    assert(spec_dilated(seg, ex - sx, ey - sy, ks, lx, ly));
    assert(dil[ly * (ex - sx) + lx]);
}

/// Read the component's tight bounds off its mask.
proof fn lemma_mask_component_bounds(
    c: Components,
    l: u32,
    mask: Seq<bool>,
    x0: int,
    y0: int,
    x1: int,
    y1: int,
)
    requires
        c.wf(),
        mask.len() == c.grid().len(),
        forall|i: int| 0 <= i < mask.len() ==> (#[trigger] mask[i]) == (c.grid()[i] == l),
        0 <= x0 <= x1 < c.spec_width(),
        0 <= y0 <= y1 < c.spec_height(),
        forall|xx: int, yy: int|
            0 <= xx < c.spec_width() && 0 <= yy < c.spec_height() && #[trigger] mask[yy
                * c.spec_width() + xx] ==> x0 <= xx <= x1 && y0 <= yy <= y1,
        exists|xx: int, yy: int|
            0 <= xx < c.spec_width() && 0 <= yy < c.spec_height() && #[trigger] mask[yy
                * c.spec_width() + xx] && xx == x0,
        exists|xx: int, yy: int|
            0 <= xx < c.spec_width() && 0 <= yy < c.spec_height() && #[trigger] mask[yy
                * c.spec_width() + xx] && xx == x1,
        exists|xx: int, yy: int|
            0 <= xx < c.spec_width() && 0 <= yy < c.spec_height() && #[trigger] mask[yy
                * c.spec_width() + xx] && yy == y0,
        exists|xx: int, yy: int|
            0 <= xx < c.spec_width() && 0 <= yy < c.spec_height() && #[trigger] mask[yy
                * c.spec_width() + xx] && yy == y1,
    ensures
        spec_component_bounds(c, l, x0, y0, x1, y1),
{
    let wi = c.spec_width();
    let hi = c.spec_height();
    assert forall|x: int, y: int|
        0 <= x < wi && 0 <= y < hi && #[trigger] c.label_at(x, y) == l implies x0 <= x <= x1 && y0
        <= y <= y1 by {
        lemma_grid_index(x, y, wi, hi);
        assert(mask[y * wi + x]);
    }
    let (ax, ay) = choose|ax: int, ay: int|
        0 <= ax < wi && 0 <= ay < hi && #[trigger] mask[ay * wi + ax] && ax == x0;
    assert(c.label_at(ax, ay) == l) by {
        lemma_grid_index(ax, ay, wi, hi);
    }
    let (bx, by) = choose|bx: int, by: int|
        0 <= bx < wi && 0 <= by < hi && #[trigger] mask[by * wi + bx] && bx == x1;
    assert(c.label_at(bx, by) == l) by {
        lemma_grid_index(bx, by, wi, hi);
    }
    let (ex2, ey2) = choose|ex2: int, ey2: int|
        0 <= ex2 < wi && 0 <= ey2 < hi && #[trigger] mask[ey2 * wi + ex2] && ey2 == y0;
    assert(c.label_at(ex2, ey2) == l) by {
        lemma_grid_index(ex2, ey2, wi, hi);
    }
    let (fx, fy) = choose|fx: int, fy: int|
        0 <= fx < wi && 0 <= fy < hi && #[trigger] mask[fy * wi + fx] && fy == y1;
    assert(c.label_at(fx, fy) == l) by {
        lemma_grid_index(fx, fy, wi, hi);
    }
}

/// Assemble the box specification from the facts the callees of
/// `component_text_box` establish: the component mask and its tight
/// bounds, the expansion size, the clamped region, the segment and
/// dilated masks with their tight bounds, and the projected corners.
#[verifier::spinoff_prover]
#[verifier::rlimit(100)]
proof fn lemma_component_box_established(
    text: ScoreMap,
    link: ScoreMap,
    c: Components,
    l: u32,
    x0: int,
    y0: int,
    x1: int,
    y1: int,
    size: int,
    sx: int,
    sy: int,
    ex: int,
    ey: int,
    seg: Seq<bool>,
    dil: Seq<bool>,
    mnx: int,
    mny: int,
    mxx: int,
    mxy: int,
    w_num: int,
    w_den: int,
    h_num: int,
    h_den: int,
    x_offset: int,
    y_offset: int,
    rect: Rect,
)
    requires
        c.wf(),
        spec_component_bounds(c, l, x0, y0, x1, y1),
        spec_expansion_size_ok(spec_label_area(c.grid(), l), x1 - x0 + 1, y1 - y0 + 1, size),
        size >= 0,
        sx == if x0 - (size + 1) >= 0 { x0 - (size + 1) } else { 0int },
        sy == if y0 - (size + 1) >= 0 { y0 - (size + 1) } else { 0int },
        ex == if x1 + size + 2 <= c.spec_width() { x1 + size + 2 } else { c.spec_width() },
        ey == if y1 + size + 2 <= c.spec_height() { y1 + size + 2 } else { c.spec_height() },
        0 < ex - sx <= 0x8000,
        0 < ey - sy <= 0x8000,
        seg.len() == (ex - sx) * (ey - sy),
        forall|lx: int, ly: int|
            0 <= lx < ex - sx && 0 <= ly < ey - sy ==> (#[trigger] seg[ly * (ex - sx) + lx])
                == spec_seg(text, link, c, l, sx + lx, sy + ly),
        dil.len() == (ex - sx) * (ey - sy),
        forall|lx: int, ly: int|
            0 <= lx < ex - sx && 0 <= ly < ey - sy ==> (#[trigger] dil[ly * (ex - sx) + lx])
                == spec_dilated(seg, ex - sx, ey - sy, size + 1, lx, ly),
        0 <= mnx <= mxx < ex - sx,
        0 <= mny <= mxy < ey - sy,
        forall|xx: int, yy: int|
            0 <= xx < ex - sx && 0 <= yy < ey - sy && #[trigger] dil[yy * (ex - sx) + xx] ==> mnx
                <= xx <= mxx && mny <= yy <= mxy,
        exists|xx: int, yy: int|
            0 <= xx < ex - sx && 0 <= yy < ey - sy && #[trigger] dil[yy * (ex - sx) + xx] && xx
                == mnx,
        exists|xx: int, yy: int|
            0 <= xx < ex - sx && 0 <= yy < ey - sy && #[trigger] dil[yy * (ex - sx) + xx] && xx
                == mxx,
        exists|xx: int, yy: int|
            0 <= xx < ex - sx && 0 <= yy < ey - sy && #[trigger] dil[yy * (ex - sx) + xx] && yy
                == mny,
        exists|xx: int, yy: int|
            0 <= xx < ex - sx && 0 <= yy < ey - sy && #[trigger] dil[yy * (ex - sx) + xx] && yy
                == mxy,
        ({
            let tlx = spec_project(sx + mnx, w_num, w_den, x_offset);
            let tly = spec_project(sy + mny, h_num, h_den, y_offset);
            let brx = spec_project(sx + mxx, w_num, w_den, x_offset);
            let bry = spec_project(sy + mxy, h_num, h_den, y_offset);
            &&& rect.x == if tlx <= brx { tlx } else { brx }
            &&& rect.y == if tly <= bry { tly } else { bry }
            &&& rect.right() == if tlx <= brx { brx } else { tlx }
            &&& rect.bottom() == if tly <= bry { bry } else { tly }
        }),
    ensures
        spec_component_box(
            text,
            link,
            c,
            l,
            w_num,
            w_den,
            h_num,
            h_den,
            x_offset,
            y_offset,
            rect,
        ),
{
    let rwi = ex - sx;
    let rhi = ey - sy;
    let ksi = size + 1;
    assert forall|x: int, y: int|
        0 <= x < rwi && 0 <= y < rhi implies #[trigger] spec_dilated(seg, rwi, rhi, ksi, x, y)
        == spec_dilated_component(text, link, c, l, sx, sy, ex, ey, ksi, x, y) by {
        let a = ksi / 2;
        if spec_dilated(seg, rwi, rhi, ksi, x, y) {
            let (ux, uy) = choose|ux: int, uy: int|
                0 <= ux < rwi && 0 <= uy < rhi && x - a <= ux <= x + (ksi - 1) - a && y - a <= uy
                    <= y + (ksi - 1) - a && #[trigger] seg[uy * rwi + ux];
            assert(seg[uy * (ex - sx) + ux] == spec_seg(text, link, c, l, sx + ux, sy + uy));
            assert(spec_dilated_component(text, link, c, l, sx, sy, ex, ey, ksi, x, y));
        }
        if spec_dilated_component(text, link, c, l, sx, sy, ex, ey, ksi, x, y) {
            let (ux, uy) = choose|ux: int, uy: int|
                0 <= ux < ex - sx && 0 <= uy < ey - sy && x - a <= ux <= x + (ksi - 1) - a && y - a
                    <= uy <= y + (ksi - 1) - a && #[trigger] spec_seg(
                    text,
                    link,
                    c,
                    l,
                    sx + ux,
                    sy + uy,
                );
            assert(seg[uy * (ex - sx) + ux]);
            assert(spec_dilated(seg, rwi, rhi, ksi, x, y));
        }
    }
    assert forall|x: int, y: int|
        0 <= x < ex - sx && 0 <= y < ey - sy && #[trigger] spec_dilated_component(
        text,
        link,
        c,
        l,
        sx,
        sy,
        ex,
        ey,
        ksi,
        x,
        y,
    ) implies mnx <= x <= mxx && mny <= y <= mxy by {
        assert(dil[y * (ex - sx) + x]);
    }
    let (d1x, d1y) = choose|d1x: int, d1y: int|
        0 <= d1x < rwi && 0 <= d1y < rhi && #[trigger] dil[d1y * (ex - sx) + d1x] && d1x == mnx;
    assert(spec_dilated_component(text, link, c, l, sx, sy, ex, ey, ksi, d1x, d1y));
    let (d2x, d2y) = choose|d2x: int, d2y: int|
        0 <= d2x < rwi && 0 <= d2y < rhi && #[trigger] dil[d2y * (ex - sx) + d2x] && d2x == mxx;
    assert(spec_dilated_component(text, link, c, l, sx, sy, ex, ey, ksi, d2x, d2y));
    let (d3x, d3y) = choose|d3x: int, d3y: int|
        0 <= d3x < rwi && 0 <= d3y < rhi && #[trigger] dil[d3y * (ex - sx) + d3x] && d3y == mny;
    assert(spec_dilated_component(text, link, c, l, sx, sy, ex, ey, ksi, d3x, d3y));
    let (d4x, d4y) = choose|d4x: int, d4y: int|
        0 <= d4x < rwi && 0 <= d4y < rhi && #[trigger] dil[d4y * (ex - sx) + d4x] && d4y == mxy;
    assert(spec_dilated_component(text, link, c, l, sx, sy, ex, ey, ksi, d4x, d4y));
    assert(spec_dilated_bounds(text, link, c, l, sx, sy, ex, ey, ksi, mnx, mny, mxx, mxy));
    assert(spec_expansion_size_ok(
        spec_label_area(c.grid(), l),
        x1 - x0 + 1,
        y1 - y0 + 1,
        size,
    ));
}

/// The box one component yields, or `None` when the filter rejects
/// it: a component is kept exactly when it covers at least
/// [`MIN_COMPONENT_AREA`] pixels and its raw text score reaches
/// [`TEXT_SCORE_FLOOR`] somewhere inside. A kept component's pixels,
/// minus link bridges, are dilated by the adaptive square element,
/// their bounding rectangle is taken and its corners are projected to
/// the caller's space by twice the resize ratios plus the offsets.
#[verifier::rlimit(100)]
#[verifier::spinoff_prover]
pub fn component_text_box(
    text: &ScoreMap,
    link: &ScoreMap,
    c: &Components,
    l: u32,
    w_num: i32,
    w_den: i32,
    h_num: i32,
    h_den: i32,
    x_offset: i32,
    y_offset: i32,
) -> (r: Option<Rect>)
    requires
        text.wf(),
        link.wf(),
        c.wf(),
        link.spec_width() == text.spec_width(),
        link.spec_height() == text.spec_height(),
        c.spec_width() == text.spec_width(),
        c.spec_height() == text.spec_height(),
        0 <= w_num,
        0 < w_den <= 1_000_000,
        w_num <= 16 * w_den,
        0 <= h_num,
        0 < h_den <= 1_000_000,
        h_num <= 16 * h_den,
        0 <= x_offset <= 1_000_000,
        0 <= y_offset <= 1_000_000,
    ensures
        r is Some <==> spec_component_accepted(*text, *c, l),
        r matches Some(rect) ==> rect.wf() && rect.x >= x_offset && rect.y >= y_offset,
        r matches Some(rect) ==> spec_component_box(
            *text,
            *link,
            *c,
            l,
            w_num as int,
            w_den as int,
            h_num as int,
            h_den as int,
            x_offset as int,
            y_offset as int,
            rect,
        ),
{
    let w = c.width();
    let h = c.height();
    proof {
        vstd::arithmetic::mul::lemma_mul_upper_bound(w as int, 0x8000, h as int, 0x8000);
        vstd::arithmetic::mul::lemma_mul_nonnegative(w as int, h as int);
    }
    let mask = c.eq_mask(l);
    let area = count_true(&mask);
    proof {
        lemma_count_label_matches(mask@, c.grid(), l);
    }
    if area < MIN_COMPONENT_AREA {
        return None;
    }
    let confident = any_masked_reaches(text, &mask, TEXT_SCORE_FLOOR);
    proof {
        lemma_mask_confidence(*text, *c, l, mask@);
    }
    if !confident {
        return None;
    }
    let b = mask_bounds(&mask, w, h);
    let (x0, y0, x1, y1) = match b {
        Some(t) => t,
        None => {
            proof {
                lemma_confident_pixel_exists(*text, *c, l, mask@);
            }
            return None;
        },
    };
    let bw = x1 - x0 + 1;
    let bh = y1 - y0 + 1;
    let size = expansion_size(area, bw, bh);
    let ks = size + 1;
    let sx: usize = if x0 >= size + 1 {
        x0 - (size + 1)
    } else {
        0
    };
    let sy: usize = if y0 >= size + 1 {
        y0 - (size + 1)
    } else {
        0
    };
    let ex: usize = if x1 + size + 2 <= w {
        x1 + size + 2
    } else {
        w
    };
    let ey: usize = if y1 + size + 2 <= h {
        y1 + size + 2
    } else {
        h
    };
    let rw = ex - sx;
    let rh = ey - sy;
    let seg = build_seg(text, link, c, l, sx, sy, ex, ey);
    let dil = dilate(&seg, rw, rh, ks);
    let db = mask_bounds(&dil, rw, rh);
    match db {
        None => {
            proof {
                lemma_kept_component_dilates(
                    *text,
                    *link,
                    *c,
                    l,
                    mask@,
                    x0 as int,
                    y0 as int,
                    x1 as int,
                    y1 as int,
                    sx as int,
                    sy as int,
                    ex as int,
                    ey as int,
                    ks as int,
                    seg@,
                    dil@,
                );
            }
            return None;
        },
        Some(bb) => {
            let (mnx, mny, mxx, mxy) = bb;
            let tlx = project_coord(sx + mnx, w_num, w_den, x_offset);
            let tly = project_coord(sy + mny, h_num, h_den, y_offset);
            let brx = project_coord(sx + mxx, w_num, w_den, x_offset);
            let bry = project_coord(sy + mxy, h_num, h_den, y_offset);
            let rect = Rect::from_points(
                Point { x: tlx, y: tly },
                Point { x: brx, y: bry },
            );
            proof {
                lemma_mask_component_bounds(
                    *c,
                    l,
                    mask@,
                    x0 as int,
                    y0 as int,
                    x1 as int,
                    y1 as int,
                );
                lemma_component_box_established(
                    *text,
                    *link,
                    *c,
                    l,
                    x0 as int,
                    y0 as int,
                    x1 as int,
                    y1 as int,
                    size as int,
                    sx as int,
                    sy as int,
                    ex as int,
                    ey as int,
                    seg@,
                    dil@,
                    mnx as int,
                    mny as int,
                    mxx as int,
                    mxy as int,
                    w_num as int,
                    w_den as int,
                    h_num as int,
                    h_den as int,
                    x_offset as int,
                    y_offset as int,
                    rect,
                );
            }
            Some(rect)
        },
    }
}

/// Extract the word boxes of the two score maps: label the combined
/// mask, keep each component that passes the area and confidence
/// filter, and return the kept components' boxes in ascending label
/// order, which is component discovery order.
pub fn extract_text_boxes(
    text: &ScoreMap,
    link: &ScoreMap,
    w_num: i32,
    w_den: i32,
    h_num: i32,
    h_den: i32,
    x_offset: i32,
    y_offset: i32,
) -> (r: Vec<Rect>)
    requires
        text.wf(),
        link.wf(),
        link.spec_width() == text.spec_width(),
        link.spec_height() == text.spec_height(),
        0 <= w_num,
        0 < w_den <= 1_000_000,
        w_num <= 16 * w_den,
        0 <= h_num,
        0 < h_den <= 1_000_000,
        h_num <= 16 * h_den,
        0 <= x_offset <= 1_000_000,
        0 <= y_offset <= 1_000_000,
    ensures
        forall|j: int| 0 <= j < r@.len() ==> (#[trigger] r@[j]).wf(),
        exists|c: Components, labs: Seq<u32>|
            #![trigger spec_labeling_matches(*text, *link, c), labs.len()]
            {
                &&& c.wf()
                &&& spec_labeling_matches(*text, *link, c)
                &&& spec_labeling_connected(*text, *link, c)
                &&& spec_labeling_separated(*text, *link, c)
                &&& labs.len() == r@.len()
                &&& forall|j: int|
                    0 <= j < labs.len() ==> 1 <= (#[trigger] labs[j]) < c.spec_count()
                        && spec_component_accepted(*text, c, labs[j])
                &&& forall|i: int, j: int| 0 <= i < j < labs.len() ==> labs[i] < labs[j]
                &&& forall|lv: u32|
                    1 <= lv < c.spec_count() && #[trigger] spec_component_accepted(*text, c, lv)
                        ==> exists|j: int| #![auto] 0 <= j < labs.len() && labs[j] == lv
            },
{
    let c = label_components(text, link);
    let mut out: Vec<Rect> = Vec::new();
    let ghost mut labs: Seq<u32> = Seq::empty();
    let mut l: u32 = 1;
    while l < c.count()
        invariant
            text.wf(),
            link.wf(),
            link.spec_width() == text.spec_width(),
            link.spec_height() == text.spec_height(),
            0 <= w_num,
            0 < w_den <= 1_000_000,
            w_num <= 16 * w_den,
            0 <= h_num,
            0 < h_den <= 1_000_000,
            h_num <= 16 * h_den,
            0 <= x_offset <= 1_000_000,
            0 <= y_offset <= 1_000_000,
            c.wf(),
            spec_labeling_matches(*text, *link, c),
            spec_labeling_connected(*text, *link, c),
            spec_labeling_separated(*text, *link, c),
            1 <= l <= c.spec_count(),
            labs.len() == out@.len(),
            forall|j: int|
                0 <= j < labs.len() ==> 1 <= (#[trigger] labs[j]) < l && spec_component_accepted(
                    *text,
                    c,
                    labs[j],
                ),
            forall|i: int, j: int| 0 <= i < j < labs.len() ==> labs[i] < labs[j],
            forall|lv: u32|
                1 <= lv < l && #[trigger] spec_component_accepted(*text, c, lv) ==> exists|j: int|
                    #![auto]
                    0 <= j < labs.len() && labs[j] == lv,
            forall|j: int| 0 <= j < out@.len() ==> (#[trigger] out@[j]).wf(),
        decreases c.spec_count() - l,
    {
        match component_text_box(
            text,
            link,
            &c,
            l,
            w_num,
            w_den,
            h_num,
            h_den,
            x_offset,
            y_offset,
        ) {
            Some(rect) => {
                out.push(rect);
                proof {
                    let labs0 = labs;
                    labs = labs.push(l);
                    assert forall|lv: u32|
                        1 <= lv < l + 1 && #[trigger] spec_component_accepted(
                        *text,
                        c,
                        lv,
                    ) implies exists|j: int| #![auto] 0 <= j < labs.len() && labs[j] == lv by {
                        if lv == l {
                            assert(labs[labs.len() - 1] == l);
                        } else {
                            let j = choose|j: int| 0 <= j < labs0.len() && labs0[j] == lv;
                            assert(labs[j] == lv);
                        }
                    }
                }
            },
            None => {
                proof {
                    assert(!spec_component_accepted(*text, c, l));
                }
            },
        }
        l = l + 1;
    }
    proof {
        assert(spec_labeling_matches(*text, *link, c));
        assert(labs.len() == out@.len());
    }
    out
}

/// The network input size for a text crop: five times each side,
/// rounded up to the next multiple of thirty-two. The resize ratios
/// the extractor later projects with are the crop's sides over these.
pub fn text_input_dims(width: i32, height: i32) -> (r: (i32, i32))
    requires
        0 < width <= 100_000,
        0 < height <= 100_000,
    ensures
        r.0 == ((5 * width + 31) / 32) * 32,
        r.1 == ((5 * height + 31) / 32) * 32,
        5 * width <= r.0 < 5 * width + 32,
        5 * height <= r.1 < 5 * height + 32,
{
    let rw = ((5 * width + 31) / 32) * 32;
    let rh = ((5 * height + 31) / 32) * 32;
    proof {
        vstd::arithmetic::div_mod::lemma_fundamental_div_mod(5 * width + 31, 32);
        vstd::arithmetic::div_mod::lemma_fundamental_div_mod(5 * height + 31, 32);
    }
    (rw, rh)
}

proof fn lemma_count_zeros_all(s: Seq<u32>)
    requires
        forall|i: int| 0 <= i < s.len() ==> (#[trigger] s[i]) == 0,
    ensures
        spec_count_zeros(s) == s.len(),
    decreases s.len(),
{
    if s.len() > 0 {
        lemma_count_zeros_all(s.drop_last());
    }
}

} // verus!

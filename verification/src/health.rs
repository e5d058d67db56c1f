//! Player health: locating the current and max health bars around the
//! separator, and parsing the recognized digit strings.

use vstd::prelude::*;

use crate::calibration::{spec_after_attempt, CalibrationFlag};
use crate::error::DetectError;
use crate::geometry::{spec_or, Point, Rect};
use crate::template::{best_match, spec_single_match, ScoreMap};

verus! {

/// The numeric value of a digit string, most significant first.
pub open spec fn spec_digits_value(s: Seq<u8>) -> int
    decreases s.len(),
{
    if s.len() == 0 {
        0
    } else {
        spec_digits_value(s.drop_last()) * 10 + (s.last() - 48)
    }
}

/// Every byte is an ASCII digit.
pub open spec fn spec_all_digits(s: Seq<u8>) -> bool {
    forall|i: int| 0 <= i < s.len() ==> 48 <= #[trigger] s[i] <= 57
}

/// The digit part of a numeral: everything after one optional leading
/// plus sign.
pub open spec fn spec_numeral_digits(s: Seq<u8>) -> Seq<u8> {
    if s.len() > 0 && s[0] == 43 {
        s.drop_first()
    } else {
        s
    }
}

/// A numeral parses exactly when its digit part is non-empty, all
/// digits, and in range.
pub open spec fn spec_parses_as_u32(s: Seq<u8>) -> bool {
    let t = spec_numeral_digits(s);
    &&& t.len() >= 1
    &&& spec_all_digits(t)
    &&& spec_digits_value(t) <= u32::MAX
}

proof fn lemma_digits_value_nonneg(s: Seq<u8>)
    requires
        spec_all_digits(s),
    ensures
        spec_digits_value(s) >= 0,
    decreases s.len(),
{
    if s.len() > 0 {
        assert forall|i: int| 0 <= i < s.drop_last().len() implies 48 <= #[trigger] s.drop_last()[
        i] <= 57 by {
            assert(s.drop_last()[i] == s[i]);
        }
        lemma_digits_value_nonneg(s.drop_last());
    }
}

proof fn lemma_digits_value_prefix_le(s: Seq<u8>, i: int)
    requires
        spec_all_digits(s),
        0 <= i <= s.len(),
    ensures
        spec_digits_value(s.take(i)) <= spec_digits_value(s),
    decreases s.len() - i,
{
    if i < s.len() {
        lemma_digits_value_prefix_le(s, i + 1);
        assert(s.take(i + 1).drop_last() == s.take(i));
        assert(s.take(i + 1).last() == s[i]);
        assert forall|j: int| 0 <= j < s.take(i).len() implies 48 <= #[trigger] s.take(i)[j]
            <= 57 by {
            assert(s.take(i)[j] == s[j]);
        }
        lemma_digits_value_nonneg(s.take(i));
        assert(spec_digits_value(s.take(i + 1)) == spec_digits_value(s.take(i)) * 10 + (s[i] - 48));
    } else {
        assert(s.take(i) == s);
    }
}

/// Parse recognized text as an unsigned integer: one optional leading
/// plus sign, then at least one decimal digit, value within `u32`.
/// Anything else is a `ParseFailure`.
pub fn parse_health_number(s: &Vec<u8>) -> (r: Result<u32, DetectError>)
    ensures
        r is Ok <==> spec_parses_as_u32(s@),
        r matches Ok(v) ==> v == spec_digits_value(spec_numeral_digits(s@)),
        r matches Err(e) ==> e == DetectError::ParseFailure,
{
    let start: usize = if s.len() > 0 && s[0] == 43 {
        1
    } else {
        0
    };
    let ghost t = spec_numeral_digits(s@);
    proof {
        assert(t.len() == s@.len() - start);
        assert forall|j: int| 0 <= j < t.len() implies t[j] == s@[start + j] by {}
    }
    if s.len() == start {
        return Err(DetectError::ParseFailure);
    }
    let mut acc: u32 = 0;
    let mut i: usize = start;
    while i < s.len()
        invariant
            start <= i <= s@.len(),
            start <= 1,
            t == spec_numeral_digits(s@),
            t.len() == s@.len() - start,
            forall|j: int| 0 <= j < t.len() ==> t[j] == s@[start + j],
            spec_all_digits(t.take(i - start)),
            acc == spec_digits_value(t.take(i - start)),
        decreases s@.len() - i,
    {
        let b = s[i];
        if b < 48 || b > 57 {
            proof {
                assert(t[i - start] == b);
                assert(!spec_all_digits(t));
            }
            return Err(DetectError::ParseFailure);
        }
        let d = (b - 48) as u32;
        proof {
            assert(t.take(i - start + 1).drop_last() == t.take(i - start));
            assert(t.take(i - start + 1).last() == t[i - start]);
        }
        if acc > (u32::MAX - d) / 10 {
            proof {
                assert(spec_all_digits(t.take(i - start + 1)));
                assert(spec_digits_value(t.take(i - start + 1)) == acc * 10 + d);
                assert(acc * 10 + d > u32::MAX) by (nonlinear_arith)
                    requires
                        acc > (u32::MAX - d) / 10,
                        0 <= d <= 9,
                ;
                if spec_all_digits(t) {
                    lemma_digits_value_prefix_le(t, i - start + 1);
                }
            }
            return Err(DetectError::ParseFailure);
        }
        acc = acc * 10 + d;
        i += 1;
    }
    proof {
        assert(t.take(t.len() as int) == t);
    }
    Ok(acc)
}

/// The current and max health read from the two recognized texts; the
/// current value is clamped to the max.
pub fn player_health_from_texts(current_text: &Vec<u8>, max_text: &Vec<u8>) -> (r: Result<
    (u32, u32),
    DetectError,
>)
    ensures
        r is Ok <==> spec_parses_as_u32(current_text@) && spec_parses_as_u32(max_text@),
        r matches Ok(v) ==> {
            let cur = spec_digits_value(spec_numeral_digits(current_text@));
            let max = spec_digits_value(spec_numeral_digits(max_text@));
            v.0 == if cur <= max {
                cur
            } else {
                max
            } && v.1 == max
        },
        r matches Err(e) ==> e == DetectError::ParseFailure,
{
    let current = parse_health_number(current_text)?;
    let max = parse_health_number(max_text)?;
    let clamped = if current <= max {
        current
    } else {
        max
    };
    Ok((clamped, max))
}

/// The health bar body: from the right edge of the bar-start template
/// match to the left edge of the bar-end match, at the start match's
/// height. An end match left of the start yields an empty bar.
pub fn health_bar_between(hp_start: &Rect, hp_end: &Rect) -> (r: Rect)
    requires
        hp_start.wf(),
        hp_end.wf(),
        hp_start.right() <= 1_000_000,
        hp_end.right() <= 1_000_000,
    ensures
        r.x == hp_start.right(),
        r.y == hp_start.y,
        r.width == if hp_end.x >= hp_start.right() {
            hp_end.x - hp_start.right()
        } else {
            0int
        },
        r.height == hp_start.height,
        r.wf(),
{
    let edge = hp_start.x + hp_start.width;
    let width = if hp_end.x >= edge {
        hp_end.x - edge
    } else {
        0
    };
    Rect { x: edge, y: hp_start.y, width, height: hp_start.height }
}

/// The index `closest_text_box` picks: the box whose right edge is
/// nearest the separator's left edge, the first one on a tie.
pub open spec fn spec_is_closest_box(s: Seq<Rect>, sep_x: int, i: int) -> bool {
    let di = if s[i].right() >= sep_x {
        s[i].right() - sep_x
    } else {
        sep_x - s[i].right()
    };
    &&& 0 <= i < s.len()
    &&& forall|k: int|
        0 <= k < s.len() ==> di <= (if (#[trigger] s[k]).right() >= sep_x {
            s[k].right() - sep_x
        } else {
            sep_x - s[k].right()
        })
    &&& forall|k: int|
        0 <= k < i ==> di < (if (#[trigger] s[k]).right() >= sep_x {
            s[k].right() - sep_x
        } else {
            sep_x - s[k].right()
        })
}

/// The text box whose right edge lies nearest the separator (the
/// first on a tie), or `None` when there is no box.
pub fn closest_text_box(boxes: &Vec<Rect>, sep_x: i32) -> (r: Option<usize>)
    requires
        forall|k: int| 0 <= k < boxes@.len() ==> (#[trigger] boxes@[k]).wf(),
        forall|k: int| 0 <= k < boxes@.len() ==> (#[trigger] boxes@[k]).right() <= 1_000_000,
        -1_000_000 <= sep_x <= 1_000_000,
    ensures
        match r {
            Some(i) => spec_is_closest_box(boxes@, sep_x as int, i as int),
            None => boxes@.len() == 0,
        },
{
    if boxes.len() == 0 {
        return None;
    }
    let mut best: usize = 0;
    let edge0 = boxes[0].x + boxes[0].width;
    let mut best_d: i32 = if edge0 >= sep_x {
        edge0 - sep_x
    } else {
        sep_x - edge0
    };
    let mut k: usize = 1;
    while k < boxes.len()
        invariant
            forall|j: int| 0 <= j < boxes@.len() ==> (#[trigger] boxes@[j]).wf(),
            forall|j: int| 0 <= j < boxes@.len() ==> (#[trigger] boxes@[j]).right() <= 1_000_000,
            -1_000_000 <= sep_x <= 1_000_000,
            boxes@.len() > 0,
            best < k <= boxes@.len(),
            best_d == (if boxes@[best as int].right() >= sep_x {
                boxes@[best as int].right() - sep_x
            } else {
                sep_x - boxes@[best as int].right()
            }),
            forall|j: int|
                0 <= j < k ==> best_d <= (if (#[trigger] boxes@[j]).right() >= sep_x {
                    boxes@[j].right() - sep_x
                } else {
                    sep_x - boxes@[j].right()
                }),
            forall|j: int|
                0 <= j < best ==> best_d < (if (#[trigger] boxes@[j]).right() >= sep_x {
                    boxes@[j].right() - sep_x
                } else {
                    sep_x - boxes@[j].right()
                }),
        decreases boxes@.len() - k,
    {
        let edge = boxes[k].x + boxes[k].width;
        let d: i32 = if edge >= sep_x {
            edge - sep_x
        } else {
            sep_x - edge
        };
        if d < best_d {
            best = k;
            best_d = d;
        }
        k += 1;
    }
    Some(best)
}

/// The running bounding union of the boxes, front to back.
pub open spec fn spec_union_all(s: Seq<Rect>) -> Rect
    decreases s.len(),
{
    if s.len() == 0 {
        Rect { x: 0, y: 0, width: 0, height: 0 }
    } else if s.len() == 1 {
        s[0]
    } else {
        spec_or(spec_union_all(s.drop_last()), s.last())
    }
}

/// The bounding union of all the boxes, or `None` when there is none.
pub fn union_of_boxes(boxes: &Vec<Rect>) -> (r: Option<Rect>)
    requires
        forall|k: int| 0 <= k < boxes@.len() ==> (#[trigger] boxes@[k]).wf(),
    ensures
        r is Some <==> boxes@.len() > 0,
        r matches Some(u) ==> u == spec_union_all(boxes@),
        r matches Some(u) ==> u.wf() && forall|k: int|
            0 <= k < boxes@.len() && !(#[trigger] boxes@[k]).is_empty() ==> u.spec_contains_rect(
                boxes@[k],
            ),
{
    if boxes.len() == 0 {
        return None;
    }
    let mut acc = boxes[0];
    let mut k: usize = 1;
    while k < boxes.len()
        invariant
            forall|j: int| 0 <= j < boxes@.len() ==> (#[trigger] boxes@[j]).wf(),
            boxes@.len() > 0,
            1 <= k <= boxes@.len(),
            acc.wf(),
            acc == spec_union_all(boxes@.take(k as int)),
            forall|j: int|
                0 <= j < k && !(#[trigger] boxes@[j]).is_empty() ==> acc.spec_contains_rect(
                    boxes@[j],
                ),
        decreases boxes@.len() - k,
    {
        let b = boxes[k];
        let joined = acc.or(&b);
        proof {
            assert(boxes@.take(k + 1).drop_last() == boxes@.take(k as int));
            assert(boxes@.take(k + 1).last() == boxes@[k as int]);
            assert forall|j: int|
                0 <= j < k + 1 && !(#[trigger] boxes@[j]).is_empty() implies joined
                .spec_contains_rect(boxes@[j]) by {}
        }
        acc = joined;
        k += 1;
    }
    proof {
        assert(boxes@.take(boxes@.len() as int) == boxes@);
    }
    Some(acc)
}

/// The current-health crop: from the shield's right edge when a
/// shield sits before the number, else the chosen box's left edge, up
/// to one past the separator, with one pixel of slack above and below
/// so thin digits stay detectable.
pub fn current_health_box(chosen: &Rect, shield: Option<&Rect>, separator_x: i32) -> (r: Rect)
    requires
        chosen.wf(),
        chosen.right() <= 1_000_000,
        chosen.bottom() <= 1_000_000,
        -1_000_000 <= separator_x <= 1_000_000,
        match shield {
            Some(sh) => sh.wf() && sh.right() <= 1_000_000,
            None => true,
        },
    ensures
        ({
            let left = match shield {
                Some(sh) => sh.right(),
                None => chosen.x as int,
            };
            &&& r.x == left
            &&& r.y == chosen.y - 1
            &&& r.width == separator_x - left + 1
            &&& r.height == chosen.height + 2
        }),
{
    let left = match shield {
        Some(sh) => sh.x + sh.width,
        None => chosen.x,
    };
    Rect { x: left, y: chosen.y - 1, width: separator_x - left + 1, height: chosen.height + 2 }
}

/// Locate the current and max health bars around the separator: the
/// current bar is cut from the text box nearest the separator (past
/// the shield when one sits before the number), the max bar is the
/// bounding union of the text boxes right of the separator. Either
/// side without a text box fails the detection.
pub fn player_health_bars(
    separator: &Rect,
    shield: Option<&Rect>,
    left_boxes: &Vec<Rect>,
    right_boxes: &Vec<Rect>,
) -> (r: Result<(Rect, Rect), DetectError>)
    requires
        separator.wf(),
        separator.right() <= 1_000_000,
        forall|k: int|
            0 <= k < left_boxes@.len() ==> (#[trigger] left_boxes@[k]).wf()
                && left_boxes@[k].right() <= 1_000_000 && left_boxes@[k].bottom() <= 1_000_000,
        forall|k: int| 0 <= k < right_boxes@.len() ==> (#[trigger] right_boxes@[k]).wf(),
        match shield {
            Some(sh) => sh.wf() && sh.right() <= 1_000_000,
            None => true,
        },
    ensures
        r is Ok <==> left_boxes@.len() > 0 && right_boxes@.len() > 0,
        r matches Err(e) ==> e == DetectError::NotFound(0),
        r matches Ok(pair) ==> exists|i: int|
            {
                &&& #[trigger] spec_is_closest_box(left_boxes@, separator.x as int, i)
                &&& pair.0.x == match shield {
                    Some(sh) => sh.right(),
                    None => left_boxes@[i].x as int,
                }
                &&& pair.0.y == left_boxes@[i].y - 1
                &&& pair.0.width == separator.x - pair.0.x + 1
                &&& pair.0.height == left_boxes@[i].height + 2
                &&& pair.1 == spec_union_all(right_boxes@)
                &&& pair.1.wf()
                &&& forall|k: int|
                    0 <= k < right_boxes@.len() && !(#[trigger] right_boxes@[k]).is_empty()
                        ==> pair.1.spec_contains_rect(right_boxes@[k])
            },
{
    let chosen_index = match closest_text_box(left_boxes, separator.x) {
        Some(i) => i,
        None => {
            return Err(DetectError::NotFound(0));
        },
    };
    let max_bar = match union_of_boxes(right_boxes) {
        Some(u) => u,
        None => {
            return Err(DetectError::NotFound(0));
        },
    };
    let current_bar = current_health_box(&left_boxes[chosen_index], shield, separator.x);
    Ok((current_bar, max_bar))
}

/// Threshold for the health-bar separator template (`0.7`).
pub const SEPARATOR_SCORE_FLOOR: i32 = 7000;

/// Threshold for the shield template before the current number (`0.8`).
pub const SHIELD_SCORE_FLOOR: i32 = 8000;

/// Locate the separator between the current and max health numbers,
/// matched under the currently selected separator-style variant's
/// template; a failed attempt flips the flag, so the next call
/// deterministically tries the other style.
pub fn detect_health_separator(
    flag: &mut CalibrationFlag,
    map: &ScoreMap,
    template_width: i32,
    template_height: i32,
    offset: Point,
) -> (r: Result<(Rect, i32), DetectError>)
    requires
        map.wf(),
        0 < template_width <= 1_000_000,
        0 < template_height <= 1_000_000,
        0 <= offset.x <= 1_000_000,
        0 <= offset.y <= 1_000_000,
    ensures
        spec_single_match(*map, template_width, template_height, offset, SEPARATOR_SCORE_FLOOR, r),
        final(flag).spec_current() == spec_after_attempt(old(flag).spec_current(), r is Ok),
{
    let outcome = best_match(map, template_width, template_height, offset, SEPARATOR_SCORE_FLOOR);
    flag.record_attempt(outcome.is_ok());
    outcome
}

/// The first index holding a recognizer step's maximum score.
pub open spec fn spec_step_argmax(s: Seq<i32>) -> int
    decreases s.len(),
{
    if s.len() <= 1 {
        0
    } else {
        let p = spec_step_argmax(s.drop_last());
        if s.last() > s[p] {
            s.len() - 1
        } else {
            p
        }
    }
}

/// Greedy decoding of the recognizer's remaining steps, `prev` being
/// the class the previous step chose (zero is the blank).
pub open spec fn spec_ctc_from(
    steps: Seq<Seq<i32>>,
    alphabet: Seq<u8>,
    i: int,
    prev: int,
) -> Seq<u8>
    decreases steps.len() - i,
{
    if i < 0 || i >= steps.len() {
        Seq::empty()
    } else {
        let cls = spec_step_argmax(steps[i]);
        let rest = spec_ctc_from(steps, alphabet, i + 1, cls);
        if cls != 0 && cls != prev {
            seq![alphabet[cls - 1]] + rest
        } else {
            rest
        }
    }
}

/// What greedy CTC decoding yields: each step's best class, with
/// consecutive repeats collapsed and blanks dropped.
pub open spec fn spec_ctc_decode(steps: Seq<Seq<i32>>, alphabet: Seq<u8>) -> Seq<u8> {
    spec_ctc_from(steps, alphabet, 0, 0)
}

/// Greedy CTC decoding of a recognizer's per-step class scores: take
/// the best class of each step (the first on a tie of scores), treat
/// class zero as the blank, collapse consecutive repeats of the same
/// class, and map the survivors through `alphabet`.
pub fn ctc_greedy_decode(steps: &Vec<Vec<i32>>, alphabet: &Vec<u8>) -> (r: Vec<u8>)
    requires
        forall|i: int|
            0 <= i < steps@.len() ==> 1 <= (#[trigger] steps@[i])@.len() <= alphabet@.len() + 1,
    ensures
        r@ == spec_ctc_decode(steps@.map_values(|row: Vec<i32>| row@), alphabet@),
{
    let ghost sview = steps@.map_values(|row: Vec<i32>| row@);
    let mut out: Vec<u8> = Vec::new();
    let mut prev: usize = 0;
    let mut i: usize = 0;
    while i < steps.len()
        invariant
            sview == steps@.map_values(|row: Vec<i32>| row@),
            forall|k: int|
                0 <= k < steps@.len() ==> 1 <= (#[trigger] steps@[k])@.len() <= alphabet@.len()
                    + 1,
            i <= steps@.len(),
            prev <= alphabet@.len(),
            spec_ctc_decode(sview, alphabet@) == out@ + spec_ctc_from(
                sview,
                alphabet@,
                i as int,
                prev as int,
            ),
        decreases steps@.len() - i,
    {
        let row = &steps[i];
        let mut best: usize = 0;
        let mut k: usize = 1;
        while k < row.len()
            invariant
                row@.len() >= 1,
                best < k <= row@.len(),
                best as int == spec_step_argmax(row@.take(k as int)),
            decreases row@.len() - k,
        {
            proof {
                assert(row@.take(k + 1).drop_last() == row@.take(k as int));
                assert(row@.take(k + 1).last() == row@[k as int]);
            }
            if row[k] > row[best] {
                best = k;
            }
            k += 1;
        }
        proof {
            assert(row@.take(row@.len() as int) == row@);
            assert(sview[i as int] == row@);
            assert(spec_ctc_from(sview, alphabet@, i as int, prev as int) == {
                let cls = spec_step_argmax(sview[i as int]);
                let rest = spec_ctc_from(sview, alphabet@, i + 1, cls);
                if cls != 0 && cls != prev {
                    seq![alphabet@[cls - 1]] + rest
                } else {
                    rest
                }
            });
        }
        let ghost out_before = out@;
        if best != 0 && best != prev {
            out.push(alphabet[best - 1]);
            proof {
                assert(out@ == out_before + seq![alphabet@[best - 1]]);
                assert(out_before + (seq![alphabet@[best - 1]] + spec_ctc_from(
                    sview,
                    alphabet@,
                    i + 1,
                    best as int,
                )) =~= out@ + spec_ctc_from(sview, alphabet@, i + 1, best as int));
            }
        }
        prev = best;
        i += 1;
    }
    proof {
        assert(spec_ctc_from(sview, alphabet@, i as int, prev as int) =~= Seq::<u8>::empty());
        assert(out@ + Seq::<u8>::empty() =~= out@);
    }
    out
}

} // verus!

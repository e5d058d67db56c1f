use backend::error::DetectError;
use backend::geometry::{Point, Rect};
use backend::template::{best_match, match_multiple, ScoreMap};

fn flat_map(width: usize, height: usize, fill: i32, hits: &[(usize, usize, i32)]) -> ScoreMap {
    let mut data = vec![fill; width * height];
    for &(x, y, v) in hits {
        data[y * width + x] = v;
    }
    ScoreMap::new(width, height, data)
}

#[test]
fn exact_match_returns_template_rect() {
    // A template present unmodified at (3, 2) correlates perfectly
    // there: the match is that location with the template's size and a
    // score of at least 0.99.
    let map = flat_map(10, 10, 0, &[(3, 2, 9950)]);
    let r = best_match(&map, 4, 5, Point::new(0, 0), 9900);
    let (rect, score) = r.expect("the exact placement must match");
    assert_eq!(rect, Rect::new(3, 2, 4, 5));
    assert!(score >= 9900);
    assert_eq!(score, 9950);
}

#[test]
fn exact_match_applies_offset() {
    let map = flat_map(10, 10, 0, &[(3, 2, 9950)]);
    let r = best_match(&map, 4, 5, Point::new(100, 50), 9900);
    let (rect, _) = r.unwrap();
    assert_eq!(rect, Rect::new(103, 52, 4, 5));
}

#[test]
fn multi_match_suppresses_and_separates() {
    // Two non-overlapping instances: a two-match query returns two
    // distinct, non-overlapping rectangles, one per instance.
    let map = flat_map(20, 10, 0, &[(2, 2, 9990), (12, 2, 9980)]);
    let results = match_multiple(map, 3, 3, Point::new(0, 0), 2, 9900);
    assert_eq!(results.len(), 2);
    let (first, first_score) = results[0].clone().unwrap();
    let (second, second_score) = results[1].clone().unwrap();
    assert_eq!(first, Rect::new(2, 2, 3, 3));
    assert_eq!(second, Rect::new(12, 2, 3, 3));
    assert_ne!(first, second);
    // Attempt order is best-first: accepted scores never increase.
    assert!(second_score <= first_score);
    let overlap = first.and(&second);
    assert_eq!(overlap, Rect::new(0, 0, 0, 0));
}

#[test]
fn multi_match_stops_after_first_failure() {
    // One instance, three requested: the second attempt fails and ends
    // the search with a single trailing failure entry.
    let map = flat_map(20, 10, 0, &[(2, 2, 9990)]);
    let results = match_multiple(map, 3, 3, Point::new(0, 0), 3, 9900);
    assert_eq!(results.len(), 2);
    assert!(results[0].is_ok());
    match results[1] {
        Err(DetectError::NotFound(s)) => assert!(s < 9900),
        _ => panic!("the trailing entry must be a NotFound"),
    }
}

#[test]
fn threshold_rejection_carries_best_score() {
    // No instance present: the search completes with NotFound carrying
    // the best score seen, which is below the threshold.
    let map = flat_map(10, 10, 1000, &[(5, 5, 4500)]);
    let r = best_match(&map, 3, 3, Point::new(0, 0), 8000);
    match r {
        Err(DetectError::NotFound(s)) => {
            assert_eq!(s, 4500);
            assert!(s < 8000);
        },
        _ => panic!("nothing clears the threshold"),
    }
}

#[test]
fn first_peak_wins_on_equal_scores() {
    let map = flat_map(10, 10, 0, &[(7, 1, 9000), (2, 4, 9000)]);
    let (rect, _) = best_match(&map, 2, 2, Point::new(0, 0), 8000).unwrap();
    assert_eq!(rect, Rect::new(7, 1, 2, 2));
}

#[test]
fn zero_and_one_max_matches_behave_alike() {
    let a = flat_map(10, 10, 0, &[(3, 3, 9990)]);
    let b = flat_map(10, 10, 0, &[(3, 3, 9990)]);
    let r0 = match_multiple(a, 2, 2, Point::new(0, 0), 0, 9000);
    let r1 = match_multiple(b, 2, 2, Point::new(0, 0), 1, 9000);
    assert_eq!(r0.len(), 1);
    assert_eq!(r1.len(), 1);
    assert_eq!(r0[0].clone().unwrap(), r1[0].clone().unwrap());
}

#[test]
fn rect_intersection_and_union() {
    let a = Rect::new(0, 0, 10, 10);
    let b = Rect::new(5, 5, 10, 10);
    assert_eq!(a.and(&b), Rect::new(5, 5, 5, 5));
    assert_eq!(a.or(&b), Rect::new(0, 0, 15, 15));
    let far = Rect::new(50, 50, 3, 3);
    assert_eq!(a.and(&far), Rect::new(0, 0, 0, 0));
    let empty = Rect::new(4, 4, 0, 7);
    assert_eq!(a.or(&empty), a);
    assert_eq!(empty.or(&a), a);
}

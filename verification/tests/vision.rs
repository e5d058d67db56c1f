use backend::calibration::{CalibrationFlag, CalibrationVariant};
use backend::decode::RawDetection;
use backend::detect::{buffs_region, detect_player, erda_shower_region};
use backend::error::DetectError;
use backend::geometry::{Point, Rect};
use backend::health::detect_health_separator;
use backend::image::Image;
use backend::minimap::{
    border_vote, expand_candidate, minimap_candidate, minimap_from_contours, validate_contour,
};
use backend::template::ScoreMap;
use backend::transform::to_minimap_coordinate;

fn bordered_image(width: usize, height: usize, border: &Rect, thickness: usize) -> Image {
    // Four bright channels for `thickness` rows from the border's top
    // edge, across the border's full width; everything else dark.
    let mut data = vec![0u8; width * height * 4];
    for y in border.y as usize..(border.y as usize + thickness) {
        for x in border.x as usize..(border.x + border.width) as usize {
            for c in 0..4 {
                data[(y * width + x) * 4 + c] = 255;
            }
        }
    }
    Image::new(width, height, 4, data)
}

#[test]
fn border_vote_uniform_thickness() {
    // A synthetic contour with a uniform border of thickness 4 on all
    // sampled columns votes exactly 4.
    let contour = Rect::new(10, 10, 30, 20);
    let image = bordered_image(50, 50, &contour, 4);
    let vote = border_vote(&image, &contour, 200);
    assert_eq!(vote, 4);
}

#[test]
fn border_vote_majority_wins() {
    let contour = Rect::new(0, 0, 30, 20);
    // Columns 3..28 are sampled; give columns 3..5 a run of 7 and the
    // rest a run of 2: the mode is 2.
    let mut data = vec![0u8; 40 * 30 * 4];
    for x in 3..28usize {
        let run = if x < 5 { 7 } else { 2 };
        for y in 0..run {
            for c in 0..4 {
                data[(y * 40 + x) * 4 + c] = 255;
            }
        }
    }
    let image = Image::new(40, 30, 4, data);
    assert_eq!(border_vote(&image, &contour, 200), 2);
}

#[test]
fn minimap_result_contained_in_expanded_candidate() {
    // A successful locator run always returns a rectangle inside the
    // expanded neural-candidate rectangle.
    let expanded = Rect::new(10, 10, 100, 100);
    let contour_local = Rect::new(5, 5, 80, 80);
    // Border thickness 3 along the translated contour's top.
    let translated = Rect::new(15, 15, 80, 80);
    let image = bordered_image(200, 200, &translated, 3);
    let r = minimap_from_contours(&expanded, &vec![contour_local], &image, 200);
    let rect = r.expect("the locator must succeed on this synthetic input");
    assert_eq!(rect, Rect::new(18, 18, 74, 74));
    assert_eq!(expanded.and(&rect), rect);
    assert!(expanded.contains_rect(&rect));
}

#[test]
fn minimap_rejects_loose_contour() {
    // The contour nearly fills the expansion: the area difference is
    // under the floor and the match is rejected.
    let expanded = Rect::new(0, 0, 40, 40);
    let contour_local = Rect::new(1, 1, 38, 38);
    assert!(validate_contour(&expanded, &contour_local).is_none());
    let image = bordered_image(100, 100, &Rect::new(1, 1, 38, 38), 2);
    let r = minimap_from_contours(&expanded, &vec![contour_local], &image, 200);
    assert_eq!(r.unwrap_err(), DetectError::MinimapNotFound);
}

#[test]
fn minimap_candidate_needs_confidence() {
    let none: Vec<RawDetection> = Vec::new();
    assert_eq!(
        minimap_candidate(&none, 1000, 1000, 1000, 640, 1000, 640).unwrap_err(),
        DetectError::MinimapNotFound
    );
    let weak = vec![RawDetection {
        x1: 100_0000,
        y1: 100_0000,
        x2: 200_0000,
        y2: 200_0000,
        confidence: 4000,
        class_id: 0,
    }];
    assert_eq!(
        minimap_candidate(&weak, 1000, 1000, 1000, 640, 1000, 640).unwrap_err(),
        DetectError::MinimapNotFound
    );
}

#[test]
fn expand_candidate_grows_symmetrically() {
    // The margin is ceil(max(w, h) * 0.008): for a 500-wide box that
    // is 4 pixels on each side.
    let bbox = Rect::new(100, 100, 500, 300);
    let grown = expand_candidate(&bbox);
    assert_eq!(grown, Rect::new(96, 96, 508, 308));
    assert!(grown.contains_rect(&bbox));
}

#[test]
fn calibration_toggles_on_failure() {
    // A failed attempt under one variant makes the immediately
    // following call use the other variant; a success keeps it.
    let mut flag = CalibrationFlag::new(CalibrationVariant::VariantA);
    flag.record_attempt(false);
    assert_eq!(flag.current(), CalibrationVariant::VariantB);
    flag.record_attempt(true);
    assert_eq!(flag.current(), CalibrationVariant::VariantB);
    flag.record_attempt(false);
    assert_eq!(flag.current(), CalibrationVariant::VariantA);
}

#[test]
fn player_detection_flips_calibration() {
    let mut flag = CalibrationFlag::new(CalibrationVariant::VariantA);
    // Nothing on the map clears even the default threshold: the
    // attempt fails and the flag flips for the next tick.
    let low = ScoreMap::new(8, 8, vec![100i32; 64]);
    let r = detect_player(&mut flag, &low, 3, 3);
    assert!(r.is_err());
    assert_eq!(flag.current(), CalibrationVariant::VariantB);
    // A map clearing the ideal threshold now succeeds and keeps the
    // flag as it is.
    let high = ScoreMap::new(8, 8, {
        let mut d = vec![0i32; 64];
        d[9] = 7700;
        d
    });
    let r = detect_player(&mut flag, &high, 3, 3);
    assert!(r.is_ok());
    assert_eq!(flag.current(), CalibrationVariant::VariantB);
}

#[test]
fn transform_accepts_boundary_rejects_outside() {
    // The box centre sits exactly mid-screen and its bottom on the
    // screen's bottom edge, so the landing point is the player's x and
    // the flipped `player.y - 20`.
    let bbox = Rect::new(480, 900, 40, 100);
    let minimap = Rect::new(0, 0, 64, 50);
    let player = Point::new(40, 30);
    let on_boundary = Rect::new(0, 0, 40, 40);
    let r = to_minimap_coordinate(bbox, minimap, on_boundary, player, 1000, 1000);
    assert_eq!(r, Some(Point::new(40, 40)));
    // One pixel outside on the right: discarded.
    let tight_x = Rect::new(0, 0, 39, 40);
    assert_eq!(to_minimap_coordinate(bbox, minimap, tight_x, player, 1000, 1000), None);
    // One pixel outside on the bottom: discarded.
    let tight_y = Rect::new(0, 0, 40, 39);
    assert_eq!(to_minimap_coordinate(bbox, minimap, tight_y, player, 1000, 1000), None);
    // Moved one pixel inward: still accepted.
    let roomy = Rect::new(0, 0, 41, 41);
    assert_eq!(to_minimap_coordinate(bbox, minimap, roomy, player, 1000, 1000), Some(Point::new(40, 40)));
}

#[test]
fn crop_regions_match_frame_fractions() {
    let buffs = buffs_region(1920, 1080);
    assert_eq!(buffs, Rect::new(1920 - 640, 0, 640, 270));
    let erda = erda_shower_region(1920, 1080);
    assert_eq!(erda, Rect::new(960, 864, 960, 216));
}

#[test]
fn separator_detection_flips_style() {
    // The separator style is calibrated exactly like the player
    // template: a failed match flips the flag for the next tick.
    let mut flag = CalibrationFlag::new(CalibrationVariant::VariantA);
    let low = ScoreMap::new(6, 6, vec![100i32; 36]);
    let r = detect_health_separator(&mut flag, &low, 2, 2, Point::new(10, 5));
    assert!(r.is_err());
    assert_eq!(flag.current(), CalibrationVariant::VariantB);
    let mut d = vec![0i32; 36];
    d[8] = 7300;
    let high = ScoreMap::new(6, 6, d);
    let (rect, score) = detect_health_separator(&mut flag, &high, 2, 2, Point::new(10, 5)).unwrap();
    assert_eq!(rect, Rect::new(12, 6, 2, 2));
    assert_eq!(score, 7300);
    assert_eq!(flag.current(), CalibrationVariant::VariantB);
}
